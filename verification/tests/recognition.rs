use base64::Engine;
use fast_dedup::ocr::{
    image_output_name, is_pdf_extension, is_pdf_path, join_lines, output_stem, page_output_name,
    read_response, recognition_form, recognition_form_for, recognition_url, token_url, OcrError,
    TokenCache,
};

fn strings(items: &[&str]) -> Vec<String> {
    items.iter().map(|s| s.to_string()).collect()
}

#[test]
fn builds_addresses() {
    assert_eq!(
        token_url("KEY", "SEC"),
        "https://aip.baidubce.com/oauth/2.0/token?grant_type=client_credentials&client_id=KEY&client_secret=SEC"
    );
    assert_eq!(
        recognition_url("tok"),
        "https://aip.baidubce.com/rest/2.0/ocr/v1/accurate_basic?access_token=tok"
    );
}

#[test]
fn token_is_kept_once_stored() {
    let mut cache = TokenCache::new();
    assert_eq!(cache.cached(), None);
    cache.store("abc");
    assert_eq!(cache.cached(), Some("abc".to_string()));
    cache.store("def");
    assert_eq!(cache.cached(), Some("def".to_string()));
}

#[test]
fn form_for_an_image() {
    let fields = recognition_form(b"hello", false, 1).unwrap();
    assert_eq!(fields.len(), 1);
    assert_eq!(fields[0].name, "image");
    assert_eq!(fields[0].value, "aGVsbG8=");
    assert_eq!(
        fields[0].value,
        base64::engine::general_purpose::STANDARD.encode(b"hello")
    );
}

#[test]
fn form_for_a_page_of_a_pdf() {
    let fields = recognition_form(&[0u8, 255, 16, 32], true, 12).unwrap();
    assert_eq!(fields.len(), 2);
    assert_eq!(fields[0].name, "pdf_file");
    assert_eq!(fields[0].value, "AP8QIA==");
    assert_eq!(fields[1].name, "pdf_file_num");
    assert_eq!(fields[1].value, "12");
    let plain = recognition_form_for("xyz".to_string(), true, 0);
    assert_eq!(plain[0].value, "xyz");
    assert_eq!(plain[1].value, "0");
}

#[test]
fn response_with_error_code() {
    match read_response(Some(17), Some("Open api daily request limit reached".to_string()), None) {
        Err(e) => {
            assert_eq!(e.describe(), "Baidu API Error 17: Open api daily request limit reached");
            assert!(matches!(e, OcrError::Service { code: 17, .. }));
        }
        Ok(_) => panic!("an error code makes an error"),
    }
    match read_response(Some(-3), None, Some(strings(&["ignored"]))) {
        Err(e) => assert_eq!(e.describe(), "Baidu API Error -3: Unknown error"),
        Ok(_) => panic!("an error code makes an error"),
    }
    match read_response(Some(i64::MIN), None, None) {
        Err(e) => assert_eq!(e.describe(), format!("Baidu API Error {}: Unknown error", i64::MIN)),
        Ok(_) => panic!("an error code makes an error"),
    }
}

#[test]
fn response_without_words() {
    match read_response(None, Some("unused".to_string()), None) {
        Err(e) => {
            assert!(matches!(e, OcrError::NoWords));
            assert_eq!(e.describe(), "No words found in response");
        }
        Ok(_) => panic!("no words, no text"),
    }
}

#[test]
fn response_with_words() {
    assert_eq!(
        read_response(None, None, Some(strings(&["first line", "second", ""]))).unwrap(),
        "first line\nsecond\n"
    );
    assert_eq!(read_response(None, None, Some(vec![])).unwrap(), "");
    assert_eq!(join_lines(&strings(&["only"])), "only");
    assert_eq!(join_lines(&strings(&["", ""])), "\n");
}

#[test]
fn tells_pdf_files() {
    assert!(is_pdf_path("docs/manual.pdf"));
    assert!(is_pdf_path("docs/MANUAL.PDF"));
    assert!(!is_pdf_path("images/photo.jpg"));
    assert!(!is_pdf_path("pdf"));
    assert!(!is_pdf_path("docs/manual.pdfx"));
    assert!(is_pdf_path("docs/manual.pdf/"));
    assert!(is_pdf_extension(Some("pdf")));
    assert!(!is_pdf_extension(Some("PDF")));
    assert!(!is_pdf_extension(None));
}

#[test]
fn names_output_files() {
    assert_eq!(output_stem("docs/manual.pdf"), "manual");
    assert_eq!(output_stem("photo.jpg"), "photo");
    assert_eq!(output_stem(".."), "output");
    assert_eq!(output_stem(""), "output");
    assert_eq!(page_output_name("manual", 3), "manual_page_3.txt");
    assert_eq!(page_output_name("manual", 120), "manual_page_120.txt");
    assert_eq!(image_output_name("photo"), "photo.txt");
}
