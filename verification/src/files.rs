//! Choosing the input photos: supported file types, newest-first order and
//! the limit on their number; and reading a paper size from its name.

use vstd::prelude::*;

use crate::paper::PaperSize;

verus! {

/// `c` in lower case when it is an ASCII capital, unchanged otherwise.
pub open spec fn lower(c: char) -> char {
    if 'A' <= c <= 'Z' { ((c as u32) + 32) as char } else { c }
}

/// `s` with its ASCII capitals in lower case.
pub open spec fn lower_seq(s: Seq<char>) -> Seq<char> {
    Seq::new(s.len(), |i: int| lower(s[i]))
}

fn lower_char(c: char) -> (r: char)
    ensures
        r == lower(c),
{
    if 'A' <= c && c <= 'Z' {
        ((c as u8) + 32) as char
    } else {
        c
    }
}

/// `s` equals `target` once its ASCII capitals are put in lower case.
fn eq_lower(s: &str, target: &str) -> (r: bool)
    ensures
        r == (lower_seq(s@) == target@),
{
    let n = s.unicode_len();
    let m = target.unicode_len();
    if n != m {
        assert(lower_seq(s@).len() != target@.len());
        return false;
    }
    let mut i: usize = 0;
    while i < n
        invariant
            0 <= i <= n,
            n == s@.len(),
            m == target@.len(),
            n == m,
            forall|k: int| 0 <= k < i ==> lower(s@[k]) == target@[k],
        decreases n - i,
    {
        if lower_char(s.get_char(i)) != target.get_char(i) {
            assert(lower_seq(s@)[i as int] != target@[i as int]);
            return false;
        }
        i = i + 1;
    }
    assert(lower_seq(s@) =~= target@);
    true
}

/// `v` holds exactly the characters of `target`.
fn chars_eq(v: &Vec<char>, target: &str) -> (r: bool)
    ensures
        r == (v@ == target@),
{
    let m = target.unicode_len();
    if v.len() != m {
        return false;
    }
    let mut i: usize = 0;
    while i < m
        invariant
            0 <= i <= m,
            m == target@.len(),
            v@.len() == m,
            forall|k: int| 0 <= k < i ==> v@[k] == target@[k],
        decreases m - i,
    {
        if v[i] != target.get_char(i) {
            return false;
        }
        i = i + 1;
    }
    assert(v@ =~= target@);
    true
}

/// The file name extensions of the photo formats that are read.
pub open spec fn supported_extension(ext: Seq<char>) -> bool {
    let e = lower_seq(ext);
    e == "jpg"@ || e == "jpeg"@ || e == "png"@ || e == "webp"@ || e == "bmp"@
}

/// Whether `ext` (without the dot) names a supported photo format: jpg, jpeg, png, webp or bmp,
/// in any case. (Only ASCII letters are folded; no other character folds to a letter of
/// these names, so this agrees with full Unicode lower-casing.)
pub fn is_supported_image_extension(ext: &str) -> (r: bool)
    ensures
        r == supported_extension(ext@),
{
    eq_lower(ext, "jpg") || eq_lower(ext, "jpeg") || eq_lower(ext, "png") || eq_lower(ext, "webp") || eq_lower(ext, "bmp")
}

/// A paper size name as matched: lower case, with `-`, `_` and spaces taken out.
pub open spec fn normalized_name(s: Seq<char>) -> Seq<char>
    decreases s.len(),
{
    if s.len() == 0 {
        seq![]
    } else {
        let c = lower(s.last());
        normalized_name(s.drop_last()) + (if c == '-' || c == '_' || c == ' ' { seq![] } else { seq![c] })
    }
}

/// The paper size a normalized name selects; anything unknown selects A4.
pub open spec fn paper_for_name(n: Seq<char>) -> PaperSize {
    if n == "letter"@ {
        PaperSize::Letter
    } else if n == "legal"@ {
        PaperSize::Legal
    } else if n == "4x6"@ || n == "photo4x6"@ || n == "4x6in"@ {
        PaperSize::Photo4x6
    } else if n == "5x7"@ || n == "photo5x7"@ || n == "5x7in"@ {
        PaperSize::Photo5x7
    } else if n == "a3"@ {
        PaperSize::A3
    } else if n == "a5"@ {
        PaperSize::A5
    } else {
        PaperSize::A4
    }
}

/// Reads a paper size from a name such as `a4`, `Letter`, `4x6`, `photo-5x7` or `5x7 in`;
/// case, `-`, `_` and spaces do not matter, and an unknown name gives A4.
pub fn parse_paper_size(s: &str) -> (p: PaperSize)
    ensures
        p == paper_for_name(normalized_name(s@)),
{
    let n = s.unicode_len();
    let mut v: Vec<char> = Vec::new();
    let mut i: usize = 0;
    while i < n
        invariant
            0 <= i <= n,
            n == s@.len(),
            v@ == normalized_name(s@.subrange(0, i as int)),
        decreases n - i,
    {
        let c = lower_char(s.get_char(i));
        if !(c == '-' || c == '_' || c == ' ') {
            v.push(c);
        }
        proof {
            assert(s@.subrange(0, i + 1).drop_last() =~= s@.subrange(0, i as int));
        }
        i = i + 1;
        assert(v@ =~= normalized_name(s@.subrange(0, i as int)));
    }
    assert(s@.subrange(0, n as int) =~= s@);
    if chars_eq(&v, "letter") {
        PaperSize::Letter
    } else if chars_eq(&v, "legal") {
        PaperSize::Legal
    } else if chars_eq(&v, "4x6") || chars_eq(&v, "photo4x6") || chars_eq(&v, "4x6in") {
        PaperSize::Photo4x6
    } else if chars_eq(&v, "5x7") || chars_eq(&v, "photo5x7") || chars_eq(&v, "5x7in") {
        PaperSize::Photo5x7
    } else if chars_eq(&v, "a3") {
        PaperSize::A3
    } else if chars_eq(&v, "a5") {
        PaperSize::A5
    } else {
        PaperSize::A4
    }
}

/// `a` sorts after `b` in newest-first order: a known time before an unknown one, a later time
/// before an earlier one.
pub open spec fn newer(a: Option<u128>, b: Option<u128>) -> bool {
    match (a, b) {
        (Some(x), Some(y)) => x > y,
        (Some(_), None) => true,
        (None, _) => false,
    }
}

fn is_newer(a: Option<u128>, b: Option<u128>) -> (r: bool)
    ensures
        r == newer(a, b),
{
    match (a, b) {
        (Some(x), Some(y)) => x > y,
        (Some(_), None) => true,
        (None, _) => false,
    }
}

/// `order` lists the indices `0 .. keys.len()` once each, newest first, keeping the given
/// order among equal times (a stable sort by descending modification time).
pub open spec fn is_newest_first(keys: Seq<Option<u128>>, order: Seq<usize>) -> bool {
    &&& order.len() == keys.len()
    &&& forall|i: int| 0 <= i < order.len() ==> #[trigger] order[i] < keys.len()
    &&& forall|i: int, j: int| 0 <= i < j < order.len() ==> order[i] != order[j]
    &&& forall|i: int, j: int| 0 <= i < j < order.len() ==> !newer(keys[order[j] as int], keys[order[i] as int])
    &&& forall|i: int, j: int| 0 <= i < j < order.len() && keys[order[i] as int] == keys[order[j] as int] ==> order[i] < order[j]
}

/// Orders files newest first by their modification times (`None` when unknown, last);
/// files with equal times keep their order.
pub fn newest_first(keys: &Vec<Option<u128>>) -> (order: Vec<usize>)
    ensures
        is_newest_first(keys@, order@),
{
    let mut order: Vec<usize> = Vec::new();
    let mut k: usize = 0;
    while k < keys.len()
        invariant
            0 <= k <= keys@.len(),
            is_newest_first(keys@.take(k as int), order@),
        decreases keys@.len() - k,
    {
        let key = keys[k];
        let mut p: usize = 0;
        while p < order.len() && !is_newer(key, keys[order[p]])
            invariant
                0 <= p <= order@.len(),
                k < keys@.len(),
                key == keys@[k as int],
                is_newest_first(keys@.take(k as int), order@),
                forall|q: int| 0 <= q < p ==> !newer(key, #[trigger] keys@[order@[q] as int]),
            decreases order@.len() - p,
        {
            p = p + 1;
        }
        let ghost old_order = order@;
        order.insert(p, k);
        proof {
            let ks = keys@.take(k + 1);
            assert forall|i: int| 0 <= i < order@.len() implies #[trigger] order@[i] < ks.len() by {}
            assert forall|i: int| 0 <= i < order@.len() implies ks[order@[i] as int] == keys@[order@[i] as int] by {}
            let kt = keys@.take(k as int);
            assert forall|i: int, j: int| 0 <= i < j < order@.len() implies !newer(ks[order@[j] as int], ks[order@[i] as int]) by {
                if j < p {
                    assert(order@[i] == old_order[i] && order@[j] == old_order[j]);
                    assert(!newer(kt[old_order[j] as int], kt[old_order[i] as int]));
                } else if i > p {
                    assert(order@[i] == old_order[i - 1] && order@[j] == old_order[j - 1]);
                    assert(!newer(kt[old_order[j - 1] as int], kt[old_order[i - 1] as int]));
                } else if j == p {
                    assert(order@[i] == old_order[i]);
                    assert(!newer(key, keys@[old_order[i] as int]));
                } else if i == p {
                    assert(order@[j] == old_order[j - 1]);
                    assert(newer(key, keys@[old_order[p as int] as int]));
                    if j - 1 > p {
                        assert(!newer(kt[old_order[j - 1] as int], kt[old_order[p as int] as int]));
                    }
                } else {
                    assert(order@[i] == old_order[i] && order@[j] == old_order[j - 1]);
                    assert(!newer(kt[old_order[j - 1] as int], kt[old_order[i] as int]));
                }
            }
            assert forall|i: int, j: int| 0 <= i < j < order@.len() && ks[order@[i] as int] == ks[order@[j] as int] implies order@[i] < order@[j] by {
                if i == p {
                    assert(p < old_order.len());
                    assert(newer(key, keys@[old_order[p as int] as int]));
                }
            }
            assert(is_newest_first(ks, order@));
        }
        k = k + 1;
    }
    assert(keys@.take(keys@.len() as int) =~= keys@);
    order
}

/// How many of `len` photos are kept under `limit` (0 means no limit).
pub fn limited_count(len: usize, limit: usize) -> (r: usize)
    ensures
        r == (if limit > 0 && limit < len { limit } else { len }),
{
    if limit > 0 && limit < len { limit } else { len }
}

/// Each paper name that the command line documents selects its format: `letter`, `legal`,
/// `a3`, `a4` and `a5` by their own names, and each photo format by its size, by `photo` and its
/// size, and by its size followed by `in`.
pub proof fn lemma_documented_paper_names()
    ensures
        paper_for_name("letter"@) == PaperSize::Letter,
        paper_for_name("legal"@) == PaperSize::Legal,
        paper_for_name("a3"@) == PaperSize::A3,
        paper_for_name("a4"@) == PaperSize::A4,
        paper_for_name("a5"@) == PaperSize::A5,
        paper_for_name("4x6"@) == PaperSize::Photo4x6,
        paper_for_name("photo4x6"@) == PaperSize::Photo4x6,
        paper_for_name("4x6in"@) == PaperSize::Photo4x6,
        paper_for_name("5x7"@) == PaperSize::Photo5x7,
        paper_for_name("photo5x7"@) == PaperSize::Photo5x7,
        paper_for_name("5x7in"@) == PaperSize::Photo5x7,
{
    reveal_strlit("letter");
    reveal_strlit("legal");
    reveal_strlit("a3");
    reveal_strlit("a4");
    reveal_strlit("a5");
    reveal_strlit("4x6");
    reveal_strlit("photo4x6");
    reveal_strlit("4x6in");
    reveal_strlit("5x7");
    reveal_strlit("photo5x7");
    reveal_strlit("5x7in");
    assert("letter"@.len() == 6 && "legal"@.len() == 5 && "4x6in"@.len() == 5 && "5x7in"@.len() == 5);
    assert("4x6"@.len() == 3 && "5x7"@.len() == 3 && "photo4x6"@.len() == 8 && "photo5x7"@.len() == 8);
    assert("a3"@.len() == 2 && "a4"@.len() == 2 && "a5"@.len() == 2);
    assert("4x6in"@[0] != "legal"@[0] && "5x7in"@[0] != "legal"@[0] && "5x7in"@[0] != "4x6in"@[0]);
    assert("5x7"@[0] != "4x6"@[0] && "photo5x7"@[5] != "photo4x6"@[5]);
    assert("a5"@[1] != "a3"@[1] && "a4"@[1] != "a3"@[1] && "a4"@[1] != "a5"@[1]);
}

/// Names are read piece by piece: the name of `a` followed by `b` normalizes to the
/// normalized `a` followed by the normalized `b`, so case and separators anywhere in a name
/// (as in `5x7 in` or `Photo-4x6`) do not change the size it selects.
pub proof fn lemma_normalized_name_concat(a: Seq<char>, b: Seq<char>)
    ensures
        normalized_name(a + b) == normalized_name(a) + normalized_name(b),
    decreases b.len(),
{
    if b.len() == 0 {
        assert(a + b =~= a);
        assert(normalized_name(a) + normalized_name(b) =~= normalized_name(a));
    } else {
        lemma_normalized_name_concat(a, b.drop_last());
        assert((a + b).drop_last() =~= a + b.drop_last());
        assert((a + b).last() == b.last());
        let c = lower(b.last());
        let tail: Seq<char> = if c == '-' || c == '_' || c == ' ' { seq![] } else { seq![c] };
        assert(normalized_name(a) + normalized_name(b.drop_last()) + tail =~= normalized_name(a) + (normalized_name(b.drop_last()) + tail));
    }
}

/// A separator normalizes to nothing, and any other character to itself in lower case.
pub proof fn lemma_normalized_char(c: char)
    ensures
        (c == '-' || c == '_' || c == ' ') ==> normalized_name(seq![c]) == Seq::<char>::empty(),
        !(c == '-' || c == '_' || c == ' ') ==> normalized_name(seq![c]) == seq![lower(c)],
{
    assert(seq![c].drop_last() =~= Seq::<char>::empty());
    assert(normalized_name(Seq::<char>::empty()) + seq![lower(c)] =~= seq![lower(c)]);
    assert(normalized_name(Seq::<char>::empty()) + Seq::<char>::empty() =~= Seq::<char>::empty());
}

} // verus!
