//! Talking to the text recognition service.
//!
//! The service is asked over HTTP, which is the caller's business. Here is
//! what is decided on either side of a request: which address to call and
//! with which form fields, what a response means, and where the recognized
//! text goes.

use vstd::prelude::*;
use base64::Engine;
use crate::decimal::{decimal, push_decimal};
use crate::path::{extension, extension_of, file_stem, file_stem_of};
use crate::sorting::texts;
use crate::text::{from_chars, lowercase, lowercase_of, push_all, same_text, to_chars};

verus! {

/// `data` in standard base64 with padding, as the `base64` crate's
/// `STANDARD` engine encodes it.
pub uninterp spec fn base64_of(data: Seq<u8>) -> Seq<char>;

/// Whether data of `len` bytes is short enough for its base64 form to have a
/// length that fits the machine.
pub open spec fn encodable_len(len: nat) -> bool {
    (len / 3) * 4 + 4 <= usize::MAX
}

/// `Engine::encode` of `base64::engine::general_purpose::STANDARD`: the
/// result depends on the bytes alone. The call aborts where the encoded
/// length overflows, so such input is ruled out.
#[verifier::external_body]
fn base64_encode(data: &[u8]) -> (text: String)
    requires
        encodable_len(data@.len()),
    ensures
        text@ == base64_of(data@),
{
    base64::engine::general_purpose::STANDARD.encode(data)
}

/// The address at which an access token is asked for.
pub open spec fn token_url_of(api_key: Seq<char>, secret_key: Seq<char>) -> Seq<char> {
    "https://aip.baidubce.com/oauth/2.0/token?grant_type=client_credentials&client_id="@ + api_key
        + "&client_secret="@ + secret_key
}

/// The address at which text is recognized.
pub open spec fn recognition_url_of(token: Seq<char>) -> Seq<char> {
    "https://aip.baidubce.com/rest/2.0/ocr/v1/accurate_basic?access_token="@ + token
}

/// The address at which an access token is asked for.
pub fn token_url(api_key: &str, secret_key: &str) -> (r: String)
    ensures
        r@ == token_url_of(api_key@, secret_key@),
{
    let mut out = to_chars(
        "https://aip.baidubce.com/oauth/2.0/token?grant_type=client_credentials&client_id=",
    );
    push_all(&mut out, &to_chars(api_key));
    push_all(&mut out, &to_chars("&client_secret="));
    push_all(&mut out, &to_chars(secret_key));
    from_chars(&out)
}

/// The address at which text is recognized with the access token `token`.
pub fn recognition_url(token: &str) -> (r: String)
    ensures
        r@ == recognition_url_of(token@),
{
    let mut out = to_chars("https://aip.baidubce.com/rest/2.0/ocr/v1/accurate_basic?access_token=");
    push_all(&mut out, &to_chars(token));
    from_chars(&out)
}

/// An access token, once one has been obtained.
#[derive(Debug)]
pub struct TokenCache {
    pub token: Option<String>,
}

impl TokenCache {
    /// A cache without a token.
    pub fn new() -> (r: TokenCache)
        ensures
            r.token is None,
    {
        TokenCache { token: None }
    }

    /// The token, if one has been stored; none means that one has to be
    /// asked for.
    pub fn cached(&self) -> (r: Option<String>)
        ensures
            match (r, self.token) {
                (Some(a), Some(b)) => a@ == b@,
                (None, None) => true,
                _ => false,
            },
    {
        match &self.token {
            Some(token) => Some(token.clone()),
            None => None,
        }
    }

    /// Keeps `token` for the requests to come.
    pub fn store(&mut self, token: &str)
        ensures
            final(self).token is Some,
            final(self).token->0@ == token@,
    {
        self.token = Some(token.to_owned());
    }
}

/// One field of a form.
#[derive(Debug)]
pub struct FormField {
    pub name: String,
    pub value: String,
}

/// The form that asks for recognition of content whose base64 form is
/// `encoded`, as pairs of field name and value: a page of a PDF file is sent
/// as `pdf_file` with its number as `pdf_file_num`, anything else as
/// `image`.
pub open spec fn form_of(encoded: Seq<char>, is_pdf: bool, page_num: nat) -> Seq<
    (Seq<char>, Seq<char>),
> {
    if is_pdf {
        seq![("pdf_file"@, encoded), ("pdf_file_num"@, decimal(page_num))]
    } else {
        seq![("image"@, encoded)]
    }
}

/// The fields of a form as pairs of plain text.
pub open spec fn field_views(fields: Seq<FormField>) -> Seq<(Seq<char>, Seq<char>)> {
    Seq::new(fields.len(), |i: int| (fields[i].name@, fields[i].value@))
}

/// The form that asks for recognition of content already encoded as
/// `encoded`.
pub fn recognition_form_for(encoded: String, is_pdf: bool, page_num: usize) -> (r: Vec<FormField>)
    ensures
        field_views(r@) == form_of(encoded@, is_pdf, page_num as nat),
{
    let mut fields: Vec<FormField> = Vec::new();
    if is_pdf {
        let mut number: Vec<char> = Vec::new();
        push_decimal(&mut number, page_num as u64);
        assert(number@ =~= decimal(page_num as nat));
        fields.push(FormField { name: "pdf_file".to_owned(), value: encoded });
        fields.push(FormField { name: "pdf_file_num".to_owned(), value: from_chars(&number) });
    } else {
        fields.push(FormField { name: "image".to_owned(), value: encoded });
    }
    assert(field_views(fields@) =~= form_of(encoded@, is_pdf, page_num as nat));
    fields
}

/// The form that asks for recognition of `data`; none if `data` is too long
/// to be encoded.
pub fn recognition_form(data: &[u8], is_pdf: bool, page_num: usize) -> (r: Option<Vec<FormField>>)
    ensures
        match r {
            Some(fields) => encodable_len(data@.len()) && field_views(fields@) == form_of(
                base64_of(data@),
                is_pdf,
                page_num as nat,
            ),
            None => !encodable_len(data@.len()),
        },
{
    if data.len() / 3 > (usize::MAX - 4) / 4 {
        None
    } else {
        Some(recognition_form_for(base64_encode(data), is_pdf, page_num))
    }
}

/// Why a response holds no text.
#[derive(Debug)]
pub enum OcrError {
    /// The service reported an error.
    Service { code: i64, message: String },
    /// The response holds neither an error nor any words.
    NoWords,
}

/// The lines `lines`, each but the last followed by a line break.
pub open spec fn joined_lines(lines: Seq<Seq<char>>) -> Seq<char>
    decreases lines.len(),
{
    if lines.len() == 0 {
        Seq::empty()
    } else if lines.len() == 1 {
        lines[0]
    } else {
        joined_lines(lines.drop_last()) + seq!['\n'] + lines.last()
    }
}

/// The lines of `lines`, each but the last followed by a line break.
pub fn join_lines(lines: &Vec<String>) -> (r: String)
    ensures
        r@ == joined_lines(texts(lines@)),
{
    let ghost all = texts(lines@);
    let mut out: Vec<char> = Vec::new();
    let mut i: usize = 0;
    proof {
        assert(all.take(0) =~= Seq::<Seq<char>>::empty());
    }
    while i < lines.len()
        invariant
            i <= lines.len(),
            all == texts(lines@),
            out@ == joined_lines(all.take(i as int)),
        decreases lines.len() - i,
    {
        proof {
            let next = all.take(i + 1);
            assert(next.drop_last() =~= all.take(i as int));
            assert(next.last() == lines@[i as int]@);
            if i == 0 {
                assert(next[0] == lines@[0]@);
            }
        }
        if i > 0 {
            out.push('\n');
        }
        push_all(&mut out, &to_chars(lines[i].as_str()));
        proof {
            if i == 0 {
                assert(out@ =~= lines@[0]@);
            }
        }
        i += 1;
    }
    proof {
        assert(all.take(i as int) =~= all);
    }
    from_chars(&out)
}

/// What a response means: an error code makes it an error of the service,
/// with the message `Unknown error` if the response gives none; without
/// error code and without words there is nothing to return; otherwise the
/// text is the words, one line each.
pub fn read_response(
    error_code: Option<i64>,
    error_msg: Option<String>,
    words: Option<Vec<String>>,
) -> (r: Result<String, OcrError>)
    ensures
        match error_code {
            Some(code) => r matches Err(OcrError::Service { code: c, message }) && c == code
                && message@ == match error_msg {
                Some(m) => m@,
                None => "Unknown error"@,
            },
            None => match words {
                Some(w) => r matches Ok(text) && text@ == joined_lines(texts(w@)),
                None => r matches Err(OcrError::NoWords),
            },
        },
{
    match error_code {
        Some(code) => {
            let message = match error_msg {
                Some(m) => m,
                None => "Unknown error".to_owned(),
            };
            Err(OcrError::Service { code, message })
        },
        None => match words {
            Some(w) => Ok(join_lines(&w)),
            None => Err(OcrError::NoWords),
        },
    }
}

/// `code` in decimal, with a minus sign if it is negative.
pub open spec fn signed_decimal(code: i64) -> Seq<char> {
    if code < 0 {
        seq!['-'] + decimal((-code) as nat)
    } else {
        decimal(code as nat)
    }
}

/// What an error says, for people to read.
pub open spec fn error_text(code: Option<i64>, message: Seq<char>) -> Seq<char> {
    match code {
        Some(c) => "Baidu API Error "@ + signed_decimal(c) + ": "@ + message,
        None => "No words found in response"@,
    }
}

impl OcrError {
    /// What the error says, for people to read.
    pub fn describe(&self) -> (r: String)
        ensures
            r@ == match self {
                OcrError::Service { code, message } => error_text(Some(*code), message@),
                OcrError::NoWords => error_text(None, Seq::empty()),
            },
    {
        match self {
            OcrError::Service { code, message } => {
                let mut out = to_chars("Baidu API Error ");
                if *code < 0 {
                    out.push('-');
                    let magnitude: u64 = (-(*code as i128)) as u64;
                    push_decimal(&mut out, magnitude);
                } else {
                    push_decimal(&mut out, *code as u64);
                }
                push_all(&mut out, &to_chars(": "));
                push_all(&mut out, &to_chars(message.as_str()));
                assert(out@ =~= error_text(Some(*code), message@));
                from_chars(&out)
            },
            OcrError::NoWords => "No words found in response".to_owned(),
        }
    }
}

/// Whether a file with the lowercase extension `ext` is taken for a PDF
/// file.
pub fn is_pdf_extension(ext: Option<&str>) -> (r: bool)
    ensures
        r == match ext {
            Some(e) => e@ == "pdf"@,
            None => false,
        },
{
    match ext {
        Some(e) => same_text(e, "pdf"),
        None => false,
    }
}

/// Whether the file at `path` is taken for a PDF file: it is if its
/// extension, in lower case, is `pdf`.
pub fn is_pdf_path(path: &str) -> (r: bool)
    ensures
        r == match extension_of(path@) {
            Some(e) => lowercase_of(e) == "pdf"@,
            None => false,
        },
{
    match extension(path) {
        Some(ext) => {
            let lower = lowercase(ext.as_str());
            is_pdf_extension(Some(lower.as_str()))
        },
        None => false,
    }
}

/// The stem under which the results for the file at `path` are saved: the
/// stem of its file name, or `output` if it has none.
pub fn output_stem(path: &str) -> (r: String)
    ensures
        r@ == match file_stem_of(path@) {
            Some(stem) => stem,
            None => "output"@,
        },
{
    match file_stem(path) {
        Some(stem) => stem,
        None => "output".to_owned(),
    }
}

/// The name of the file that holds the text of page `page`:
/// `<stem>_page_<page>.txt`.
pub fn page_output_name(stem: &str, page: usize) -> (r: String)
    ensures
        r@ == stem@ + "_page_"@ + decimal(page as nat) + ".txt"@,
{
    let mut out = to_chars(stem);
    push_all(&mut out, &to_chars("_page_"));
    push_decimal(&mut out, page as u64);
    push_all(&mut out, &to_chars(".txt"));
    from_chars(&out)
}

/// The name of the file that holds the text of an image: `<stem>.txt`.
pub fn image_output_name(stem: &str) -> (r: String)
    ensures
        r@ == stem@ + ".txt"@,
{
    let mut out = to_chars(stem);
    push_all(&mut out, &to_chars(".txt"));
    from_chars(&out)
}

} // verus!
