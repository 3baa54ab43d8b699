//! The order in which paths are ranked.
//!
//! Paths are ranked component by component, not character by character: a
//! path comes before every path that extends it by further components, and
//! two sibling names are ranked by their characters. The order is total, but
//! two different spellings of the same components (`a//b` and `a/b`) rank
//! equal.

use vstd::prelude::*;
use crate::path::name_chars;
use crate::text::to_chars;

verus! {

/// How one value ranks against another.
#[derive(Clone, Copy, Debug, PartialEq, Eq, Structural)]
pub enum Rank {
    Before,
    Same,
    After,
}

impl Rank {
    /// `-1`, `0` or `1`.
    pub open spec fn sign(self) -> int {
        match self {
            Rank::Before => -1,
            Rank::Same => 0,
            Rank::After => 1,
        }
    }
}

/// Order of `a[i..]` against `b[i..]` by character codes, a proper prefix
/// coming first: `-1`, `0` or `1`.
pub open spec fn text_order_from(a: Seq<char>, b: Seq<char>, i: int) -> int
    decreases a.len() - i,
{
    if i >= a.len() {
        if i >= b.len() {
            0
        } else {
            -1
        }
    } else if i >= b.len() {
        1
    } else if (a[i] as int) < (b[i] as int) {
        -1
    } else if (a[i] as int) > (b[i] as int) {
        1
    } else {
        text_order_from(a, b, i + 1)
    }
}

/// Order of two texts by character codes: `-1`, `0` or `1`.
pub open spec fn text_order(a: Seq<char>, b: Seq<char>) -> int {
    text_order_from(a, b, 0)
}

/// The order of texts is total: a text ranks equal to itself, swapping the
/// texts flips the sign, and both "not after" and "equal" are transitive.
pub proof fn lemma_text_order_from_laws(a: Seq<char>, b: Seq<char>, c: Seq<char>, i: int)
    requires
        0 <= i,
    ensures
        -1 <= text_order_from(a, b, i) <= 1,
        text_order_from(a, a, i) == 0,
        text_order_from(a, b, i) == -text_order_from(b, a, i),
        text_order_from(a, b, i) <= 0 && text_order_from(b, c, i) <= 0 ==> text_order_from(a, c, i)
            <= 0,
        text_order_from(a, b, i) == 0 && text_order_from(b, c, i) == 0 ==> text_order_from(a, c, i)
            == 0,
    decreases a.len() + b.len() + c.len() - i,
{
    if i < a.len() || i < b.len() || i < c.len() {
        lemma_text_order_from_laws(a, b, c, i + 1);
    }
}

/// Texts that rank equal from `i` on agree from `i` on.
pub proof fn lemma_text_order_from_same(a: Seq<char>, b: Seq<char>, i: int)
    requires
        0 <= i <= a.len(),
        i <= b.len(),
        text_order_from(a, b, i) == 0,
    ensures
        a.len() == b.len(),
        forall|j: int| i <= j < a.len() ==> a[j] == b[j],
    decreases a.len() - i,
{
    if i < a.len() {
        lemma_text_order_from_same(a, b, i + 1);
        assert(a[i] as int == b[i] as int);
        assert(a[i] == b[i]);
    }
}

/// Two texts rank equal exactly when they are the same text.
pub proof fn lemma_text_order_same(a: Seq<char>, b: Seq<char>)
    ensures
        text_order(a, b) == 0 <==> a == b,
{
    if text_order(a, b) == 0 {
        lemma_text_order_from_same(a, b, 0);
        assert(a =~= b);
    }
    if a == b {
        lemma_text_order_from_laws(a, a, a, 0);
    }
}

/// Ranks `a` against `b` by character codes.
pub(crate) fn rank_text(a: &Vec<char>, b: &Vec<char>) -> (r: Rank)
    ensures
        r.sign() == text_order(a@, b@),
{
    let mut i: usize = 0;
    while i < a.len() && i < b.len()
        invariant
            i <= a.len(),
            i <= b.len(),
            text_order_from(a@, b@, i as int) == text_order(a@, b@),
        decreases a.len() - i,
    {
        if a[i] < b[i] {
            return Rank::Before;
        }
        if a[i] > b[i] {
            return Rank::After;
        }
        i += 1;
    }
    if i < b.len() {
        Rank::Before
    } else if i < a.len() {
        Rank::After
    } else {
        Rank::Same
    }
}

/// A path component as far as ranking goes: its kind (`0` the root, `1` a
/// leading `.`, `2` a `..`, `3` a name) and, for a name, its text.
pub type Part = (int, Seq<char>);

/// The components that the piece of text between two separators stands for.
/// `leading` says that the piece opens a relative path.
pub open spec fn piece_parts(piece: Seq<char>, leading: bool) -> Seq<Part> {
    if piece.len() == 0 {
        Seq::empty()
    } else if piece == seq!['.'] {
        if leading {
            seq![(1int, Seq::<char>::empty())]
        } else {
            Seq::empty()
        }
    } else if piece == seq!['.', '.'] {
        seq![(2int, Seq::<char>::empty())]
    } else {
        seq![(3int, piece)]
    }
}

/// The components of `p[start..]`, where `p[start..i]` is known to hold no
/// separator.
pub open spec fn parts_scan(p: Seq<char>, start: int, i: int, leading: bool) -> Seq<Part>
    decreases p.len() - i,
{
    if i >= p.len() {
        piece_parts(p.subrange(start, p.len() as int), leading)
    } else if p[i] == '/' {
        piece_parts(p.subrange(start, i), leading) + parts_scan(p, i + 1, i + 1, false)
    } else {
        parts_scan(p, start, i + 1, leading)
    }
}

/// The components of a path, in order.
pub open spec fn components_of(p: Seq<char>) -> Seq<Part> {
    if p.len() > 0 && p[0] == '/' {
        seq![(0int, Seq::<char>::empty())] + parts_scan(p, 1, 1, false)
    } else {
        parts_scan(p, 0, 0, true)
    }
}

/// Order of two components: by kind, and two names by their text.
pub open spec fn part_order(a: Part, b: Part) -> int {
    if a.0 < b.0 {
        -1
    } else if a.0 > b.0 {
        1
    } else {
        text_order(a.1, b.1)
    }
}

/// Order of `a[i..]` against `b[i..]`, component by component, a proper
/// prefix coming first.
pub open spec fn parts_order_from(a: Seq<Part>, b: Seq<Part>, i: int) -> int
    decreases a.len() - i,
{
    if i >= a.len() {
        if i >= b.len() {
            0
        } else {
            -1
        }
    } else if i >= b.len() {
        1
    } else if part_order(a[i], b[i]) != 0 {
        part_order(a[i], b[i])
    } else {
        parts_order_from(a, b, i + 1)
    }
}

/// Order of two paths: `-1` if `a` ranks first, `1` if `b` does, `0` if they
/// have the same components.
pub open spec fn path_order(a: Seq<char>, b: Seq<char>) -> int {
    parts_order_from(components_of(a), components_of(b), 0)
}

/// The order of component sequences is a total preorder, as that of texts
/// is.
pub proof fn lemma_parts_order_from_laws(a: Seq<Part>, b: Seq<Part>, c: Seq<Part>, i: int)
    requires
        0 <= i,
    ensures
        -1 <= parts_order_from(a, b, i) <= 1,
        parts_order_from(a, a, i) == 0,
        parts_order_from(a, b, i) == -parts_order_from(b, a, i),
        parts_order_from(a, b, i) <= 0 && parts_order_from(b, c, i) <= 0 ==> parts_order_from(
            a,
            c,
            i,
        ) <= 0,
    decreases a.len() + b.len() + c.len() - i,
{
    if i < a.len() || i < b.len() || i < c.len() {
        lemma_parts_order_from_laws(a, b, c, i + 1);
    }
    if i < a.len() {
        lemma_text_order_from_laws(a[i].1, a[i].1, a[i].1, 0);
    }
    if i < a.len() && i < b.len() {
        lemma_text_order_from_laws(a[i].1, b[i].1, b[i].1, 0);
    }
    if i < a.len() && i < b.len() && i < c.len() {
        lemma_text_order_from_laws(a[i].1, b[i].1, c[i].1, 0);
        lemma_text_order_from_laws(b[i].1, c[i].1, a[i].1, 0);
        lemma_text_order_from_laws(c[i].1, a[i].1, b[i].1, 0);
    }
}

/// The path order is a total preorder: every path ranks equal to itself,
/// swapping the two paths flips the sign, and "not after" is transitive.
pub proof fn lemma_path_order_laws(a: Seq<char>, b: Seq<char>, c: Seq<char>)
    ensures
        -1 <= path_order(a, b) <= 1,
        path_order(a, a) == 0,
        path_order(a, b) == -path_order(b, a),
        path_order(a, b) <= 0 && path_order(b, c) <= 0 ==> path_order(a, c) <= 0,
{
    lemma_parts_order_from_laws(components_of(a), components_of(b), components_of(c), 0);
}

/// What a list of parsed components stands for.
pub open spec fn parts_view(v: Seq<(u8, Vec<char>)>) -> Seq<Part> {
    Seq::new(v.len(), |i: int| (v[i].0 as int, v[i].1@))
}

/// Appends to `acc` the components of the piece `p[start..end]`.
fn push_piece(
    acc: &mut Vec<(u8, Vec<char>)>,
    p: &Vec<char>,
    start: usize,
    end: usize,
    leading: bool,
)
    requires
        start <= end <= p.len(),
    ensures
        parts_view(final(acc)@) == parts_view(old(acc)@) + piece_parts(
            p@.subrange(start as int, end as int),
            leading,
        ),
{
    let ghost before = parts_view(acc@);
    let ghost piece = p@.subrange(start as int, end as int);
    let len = end - start;
    if len == 0 {
        assert(parts_view(acc@) == before + piece_parts(piece, leading));
    } else if len == 1 && p[start] == '.' {
        assert(piece == seq!['.']);
        if leading {
            acc.push((1u8, Vec::new()));
        }
        assert(parts_view(acc@) == before + piece_parts(piece, leading));
    } else if len == 2 && p[start] == '.' && p[start + 1] == '.' {
        assert(piece == seq!['.', '.']);
        assert(seq!['.', '.'].len() == 2);
        acc.push((2u8, Vec::new()));
        assert(parts_view(acc@) == before + piece_parts(piece, leading));
    } else {
        proof {
            if piece == seq!['.'] {
                assert(piece.len() == 1 && piece[0] == '.');
            }
            if piece == seq!['.', '.'] {
                assert(piece.len() == 2 && piece[0] == '.' && piece[1] == '.');
            }
        }
        acc.push((3u8, name_chars(p, start, end)));
        assert(parts_view(acc@) == before + piece_parts(piece, leading));
    }
}

/// The components of the path `p`.
pub(crate) fn components(p: &Vec<char>) -> (r: Vec<(u8, Vec<char>)>)
    ensures
        parts_view(r@) == components_of(p@),
{
    let mut acc: Vec<(u8, Vec<char>)> = Vec::new();
    let mut start: usize = 0;
    let mut leading = true;
    if p.len() > 0 && p[0] == '/' {
        acc.push((0u8, Vec::new()));
        start = 1;
        leading = false;
        assert(parts_view(acc@) == seq![(0int, Seq::<char>::empty())]);
    } else {
        assert(parts_view(acc@) == Seq::<Part>::empty());
    }
    let mut i: usize = start;
    while i < p.len()
        invariant
            start <= i <= p.len(),
            parts_view(acc@) + parts_scan(p@, start as int, i as int, leading) == components_of(
                p@,
            ),
        decreases p.len() - i,
    {
        if p[i] == '/' {
            let ghost before = parts_view(acc@);
            let ghost piece_start = start as int;
            let ghost was_leading = leading;
            push_piece(&mut acc, p, start, i, leading);
            start = i + 1;
            leading = false;
            proof {
                let piece = piece_parts(p@.subrange(piece_start, i as int), was_leading);
                let rest = parts_scan(p@, i + 1, i + 1, false);
                assert((before + piece) + rest == before + (piece + rest));
            }
        }
        i += 1;
    }
    let ghost before = parts_view(acc@);
    push_piece(&mut acc, p, start, p.len(), leading);
    acc
}

/// Ranks the path `a` against the path `b`.
pub fn rank_paths(a: &str, b: &str) -> (r: Rank)
    ensures
        r.sign() == path_order(a@, b@),
{
    let ca = components(&to_chars(a));
    let cb = components(&to_chars(b));
    let ghost pa = parts_view(ca@);
    let ghost pb = parts_view(cb@);
    let mut i: usize = 0;
    while i < ca.len() && i < cb.len()
        invariant
            i <= ca.len(),
            i <= cb.len(),
            pa == parts_view(ca@),
            pb == parts_view(cb@),
            parts_order_from(pa, pb, i as int) == path_order(a@, b@),
        decreases ca.len() - i,
    {
        assert(pa[i as int] == (ca@[i as int].0 as int, ca@[i as int].1@));
        assert(pb[i as int] == (cb@[i as int].0 as int, cb@[i as int].1@));
        if ca[i].0 < cb[i].0 {
            return Rank::Before;
        }
        if ca[i].0 > cb[i].0 {
            return Rank::After;
        }
        let by_text = rank_text(&ca[i].1, &cb[i].1);
        match by_text {
            Rank::Before => {
                return Rank::Before;
            },
            Rank::After => {
                return Rank::After;
            },
            Rank::Same => {},
        }
        i += 1;
    }
    if i < cb.len() {
        Rank::Before
    } else if i < ca.len() {
        Rank::After
    } else {
        Rank::Same
    }
}

} // verus!
