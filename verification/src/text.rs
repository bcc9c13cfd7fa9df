//! Text helpers over the character view of strings.
//!
//! Prefix, suffix, infix, trimming, case-blind ASCII comparison and the file
//! name of a path are written here against their short statements; Unicode
//! case mapping and UTF-8 decoding are std's, behind trusted wrappers.
use vstd::prelude::*;
use vstd::string::StrSliceExecFns;
use vstd::utf8::{decode_utf8, valid_utf8};

verus! {

/// The views of a sequence of strings.
pub open spec fn string_views(v: Seq<String>) -> Seq<Seq<char>> {
    v.map_values(|s: String| s@)
}

/// `p` is a prefix of `s`.
pub open spec fn has_prefix(s: Seq<char>, p: Seq<char>) -> bool {
    p.len() <= s.len() && s.subrange(0, p.len() as int) == p
}

/// `p` is a suffix of `s`.
pub open spec fn has_suffix(s: Seq<char>, p: Seq<char>) -> bool {
    p.len() <= s.len() && s.subrange(s.len() - p.len(), s.len() as int) == p
}

/// `p` occurs in `s` at position `i`.
pub open spec fn occurs_at(s: Seq<char>, p: Seq<char>, i: int) -> bool {
    0 <= i && i + p.len() <= s.len() && s.subrange(i, i + p.len()) == p
}

/// `p` occurs somewhere in `s`.
pub open spec fn has_infix(s: Seq<char>, p: Seq<char>) -> bool {
    exists|i: int| occurs_at(s, p, i)
}

/// `s` with every trailing repetition of a non-empty `p` removed
/// (the behaviour of `str::trim_end_matches` with a string pattern).
pub open spec fn strip_suffixes(s: Seq<char>, p: Seq<char>) -> Seq<char>
    decreases s.len(),
{
    if p.len() > 0 && has_suffix(s, p) {
        strip_suffixes(s.subrange(0, s.len() - p.len()), p)
    } else {
        s
    }
}

/// ASCII lower-casing of one character; other characters stay.
pub open spec fn ascii_lower(c: char) -> char {
    if 'A' <= c && c <= 'Z' {
        ((c as u32) + 32) as char
    } else {
        c
    }
}

/// Equality up to ASCII case (the behaviour of `str::eq_ignore_ascii_case`).
pub open spec fn eq_ascii_case_blind(a: Seq<char>, b: Seq<char>) -> bool {
    a.len() == b.len() && forall|i: int| 0 <= i < a.len() ==> ascii_lower(a[i]) == ascii_lower(
        b[i],
    )
}

/// Whether a character has the Unicode property White_Space (what
/// `char::is_whitespace` returns): U+0009 to U+000D, U+0020, U+0085, U+00A0,
/// U+1680, U+2000 to U+200A, U+2028, U+2029, U+202F, U+205F and U+3000.
pub open spec fn unicode_white_space(c: char) -> bool {
    let u = c as u32;
    ||| 0x09 <= u <= 0x0D
    ||| u == 0x20
    ||| u == 0x85
    ||| u == 0xA0
    ||| u == 0x1680
    ||| 0x2000 <= u <= 0x200A
    ||| u == 0x2028
    ||| u == 0x2029
    ||| u == 0x202F
    ||| u == 0x205F
    ||| u == 0x3000
}

/// `char::is_whitespace`: whether a character has the Unicode property
/// White_Space.
pub fn is_white_space(c: char) -> (r: bool)
    ensures
        r == unicode_white_space(c),
{
    let u = c as u32;
    (0x09 <= u && u <= 0x0D) || u == 0x20 || u == 0x85 || u == 0xA0 || u == 0x1680 || (0x2000
        <= u && u <= 0x200A) || u == 0x2028 || u == 0x2029 || u == 0x202F || u == 0x205F || u
        == 0x3000
}

/// `r` is `s` with its leading and trailing White_Space characters removed.
pub open spec fn is_trim_of(s: Seq<char>, r: Seq<char>) -> bool {
    exists|a: int, b: int| trim_bounds(s, r, a, b)
}

/// `s[a..b]` is `r`, everything outside it is White_Space and its ends are not.
pub open spec fn trim_bounds(s: Seq<char>, r: Seq<char>, a: int, b: int) -> bool {
    &&& 0 <= a <= b <= s.len()
    &&& r == s.subrange(a, b)
    &&& forall|i: int| 0 <= i < a ==> unicode_white_space(#[trigger] s[i])
    &&& forall|i: int| b <= i < s.len() ==> unicode_white_space(#[trigger] s[i])
    &&& a < b ==> !unicode_white_space(s[a]) && !unicode_white_space(s[b - 1])
}

/// The trimmed form of `s` (unique, see `lemma_trim_unique`).
pub open spec fn trim_spec(s: Seq<char>) -> Seq<char> {
    choose|r: Seq<char>| is_trim_of(s, r)
}

/// Two trimmings of one string are the same string.
pub proof fn lemma_trim_unique(s: Seq<char>, r1: Seq<char>, r2: Seq<char>)
    requires
        is_trim_of(s, r1),
        is_trim_of(s, r2),
    ensures
        r1 == r2,
{
    let (a1, b1) = choose|a: int, b: int| trim_bounds(s, r1, a, b);
    let (a2, b2) = choose|a: int, b: int| trim_bounds(s, r2, a, b);
    if a1 < b1 && a2 < b2 {
        // each end of one trimming is not White_Space, so it is an end of the other
        if a1 < a2 {
            assert(unicode_white_space(s[a1]));
        }
        if a2 < a1 {
            assert(unicode_white_space(s[a2]));
        }
        if b1 < b2 {
            assert(unicode_white_space(s[b2 - 1]));
        }
        if b2 < b1 {
            assert(unicode_white_space(s[b1 - 1]));
        }
    } else if a1 < b1 {
        // the other trimming is empty, so every character is White_Space
        assert(unicode_white_space(s[a1]));
    } else if a2 < b2 {
        assert(unicode_white_space(s[a2]));
    } else {
        assert(r1 =~= r2);
    }
}

/// Every string has a trimming: `trim_spec` is one.
pub proof fn lemma_trim_exists(s: Seq<char>)
    ensures
        is_trim_of(s, trim_spec(s)),
    decreases s.len(),
{
    if s.len() == 0 {
        assert(trim_bounds(s, s.subrange(0, 0), 0, 0));
        assert(is_trim_of(s, s.subrange(0, 0)));
    } else if unicode_white_space(s[0]) {
        let t = s.drop_first();
        lemma_trim_exists(t);
        let (a, b) = choose|a: int, b: int| trim_bounds(t, trim_spec(t), a, b);
        assert(t.subrange(a, b) =~= s.subrange(a + 1, b + 1));
        assert forall|i: int| 0 <= i < a + 1 implies unicode_white_space(#[trigger] s[i]) by {
            if i > 0 {
                assert(s[i] == t[i - 1]);
            }
        }
        assert forall|i: int| b + 1 <= i < s.len() implies unicode_white_space(#[trigger] s[i]) by {
            assert(s[i] == t[i - 1]);
        }
        assert(trim_bounds(s, s.subrange(a + 1, b + 1), a + 1, b + 1));
        assert(is_trim_of(s, s.subrange(a + 1, b + 1)));
    } else if unicode_white_space(s.last()) {
        let t = s.drop_last();
        lemma_trim_exists(t);
        let (a, b) = choose|a: int, b: int| trim_bounds(t, trim_spec(t), a, b);
        assert(t.subrange(a, b) =~= s.subrange(a, b));
        assert forall|i: int| b <= i < s.len() implies unicode_white_space(#[trigger] s[i]) by {
            if i < t.len() {
                assert(s[i] == t[i]);
            }
        }
        assert forall|i: int| 0 <= i < a implies unicode_white_space(#[trigger] s[i]) by {
            assert(s[i] == t[i]);
        }
        assert(trim_bounds(s, s.subrange(a, b), a, b));
        assert(is_trim_of(s, s.subrange(a, b)));
    } else {
        assert(s.subrange(0, s.len() as int) =~= s);
        assert(trim_bounds(s, s.subrange(0, s.len() as int), 0, s.len() as int));
        assert(is_trim_of(s, s.subrange(0, s.len() as int)));
    }
}

/// A trimming of `s` is `trim_spec(s)`.
pub proof fn lemma_trim_spec(s: Seq<char>, r: Seq<char>)
    requires
        is_trim_of(s, r),
    ensures
        trim_spec(s) == r,
{
    lemma_trim_unique(s, r, trim_spec(s));
}

/// What `str::to_lowercase` returns for a string (Unicode lower-case mapping).
pub uninterp spec fn unicode_lowercase(s: Seq<char>) -> Seq<char>;

/// Calls `str::to_lowercase`; the result is named by `unicode_lowercase`,
/// a function of the characters alone.
#[verifier::external_body]
pub fn to_lowercase(s: &str) -> (r: String)
    ensures
        r@ == unicode_lowercase(s@),
{
    s.to_lowercase()
}

/// `str::trim`: the string without its leading and trailing characters of
/// the Unicode property White_Space.
pub fn trim(s: &str) -> (r: &str)
    ensures
        is_trim_of(s@, r@),
        r@ == trim_spec(s@),
{
    let v = chars_vec(s);
    let mut a: usize = 0;
    while a < v.len() && is_white_space(v[a])
        invariant
            a <= v@.len(),
            v@ == s@,
            forall|i: int| 0 <= i < a ==> unicode_white_space(#[trigger] s@[i]),
        decreases v.len() - a,
    {
        a += 1;
    }
    let mut b: usize = v.len();
    while b > a && is_white_space(v[b - 1])
        invariant
            a <= b <= v@.len(),
            v@ == s@,
            a < v@.len() ==> !unicode_white_space(s@[a as int]),
            forall|i: int| b <= i < s@.len() ==> unicode_white_space(#[trigger] s@[i]),
        decreases b - a,
    {
        b -= 1;
    }
    let r = s.substring_char(a, b);
    proof {
        assert(trim_bounds(s@, r@, a as int, b as int));
        lemma_trim_spec(s@, r@);
    }
    r
}

/// Calls `std::str::from_utf8`: it succeeds exactly on valid UTF-8, and the
/// string it gives holds the decoded characters.
#[verifier::external_body]
pub fn utf8_str(bytes: &[u8]) -> (r: Option<&str>)
    ensures
        r is Some <==> valid_utf8(bytes@),
        r matches Some(s) ==> s@ == decode_utf8(bytes@),
{
    std::str::from_utf8(bytes).ok()
}

/// The characters of `s`, in order.
pub fn chars_vec(s: &str) -> (v: Vec<char>)
    ensures
        v@ == s@,
{
    let mut v: Vec<char> = Vec::new();
    for c in it: s.chars()
        invariant
            v@ == it.seq().take(it.index()),
            it.seq() == s@,
    {
        v.push(c);
    }
    v
}


/// Whether `p` occurs in `s` at position `at`.
fn occurs_at_exec(s: &Vec<char>, p: &Vec<char>, at: usize) -> (r: bool)
    ensures
        r == occurs_at(s@, p@, at as int),
{
    if at > s.len() || p.len() > s.len() - at {
        return false;
    }
    let mut i: usize = 0;
    while i < p.len()
        invariant
            i <= p.len(),
            at + p.len() <= s.len(),
            forall|j: int| 0 <= j < i ==> s@[at + j] == p@[j],
        decreases p.len() - i,
    {
        if s[at + i] != p[i] {
            assert(s@.subrange(at as int, at + p@.len())[i as int] != p@[i as int]);
            return false;
        }
        i += 1;
    }
    assert(s@.subrange(at as int, at + p@.len()) =~= p@);
    true
}

/// `str::starts_with` with a string pattern.
pub fn starts_with(s: &str, p: &str) -> (r: bool)
    ensures
        r == has_prefix(s@, p@),
{
    let sv = chars_vec(s);
    let pv = chars_vec(p);
    occurs_at_exec(&sv, &pv, 0)
}

/// `str::ends_with` with a string pattern.
pub fn ends_with(s: &str, p: &str) -> (r: bool)
    ensures
        r == has_suffix(s@, p@),
{
    let sv = chars_vec(s);
    let pv = chars_vec(p);
    if pv.len() > sv.len() {
        return false;
    }
    occurs_at_exec(&sv, &pv, sv.len() - pv.len())
}

/// `str::contains` with a string pattern.
pub fn contains(s: &str, p: &str) -> (r: bool)
    ensures
        r == has_infix(s@, p@),
{
    let sv = chars_vec(s);
    let pv = chars_vec(p);
    if pv.len() > sv.len() {
        assert forall|i: int| !occurs_at(s@, p@, i) by {}
        return false;
    }
    let last = sv.len() - pv.len();
    let mut at: usize = 0;
    while at < last
        invariant
            at <= last,
            last + pv@.len() == sv@.len(),
            sv@ == s@,
            pv@ == p@,
            forall|i: int| 0 <= i < at ==> !occurs_at(s@, p@, i),
        decreases last - at,
    {
        if occurs_at_exec(&sv, &pv, at) {
            return true;
        }
        at += 1;
    }
    if occurs_at_exec(&sv, &pv, last) {
        return true;
    }
    assert forall|i: int| !occurs_at(s@, p@, i) by {
        if 0 <= i <= last {
        }
    }
    false
}

/// Dropping a suffix `p` from a prefix of `s` gives a shorter prefix of `s`.
proof fn lemma_strip_step(s: Seq<char>, p: Seq<char>, end: int)
    requires
        0 < p.len() <= end <= s.len(),
        occurs_at(s, p, end - p.len()),
    ensures
        has_suffix(s.subrange(0, end), p),
        s.subrange(0, end).subrange(0, end - p.len()) == s.subrange(0, end - p.len()),
{
    assert(s.subrange(0, end).subrange(end - p.len(), end) =~= s.subrange(end - p.len(), end));
    assert(s.subrange(0, end).subrange(0, end - p.len()) =~= s.subrange(0, end - p.len()));
}

/// `str::trim_end_matches` with a string pattern.
pub fn trim_end_matches<'a>(s: &'a str, p: &str) -> (r: &'a str)
    ensures
        r@ == strip_suffixes(s@, p@),
{
    let sv = chars_vec(s);
    let pv = chars_vec(p);
    let mut end: usize = sv.len();
    assert(s@.subrange(0, s@.len() as int) =~= s@);
    if pv.len() > 0 {
        while pv.len() <= end && occurs_at_exec(&sv, &pv, end - pv.len())
            invariant
                end <= sv@.len(),
                sv@ == s@,
                pv@ == p@,
                pv@.len() > 0,
                strip_suffixes(s@, p@) == strip_suffixes(s@.subrange(0, end as int), p@),
            decreases end,
        {
            proof {
                lemma_strip_step(s@, p@, end as int);
            }
            end = end - pv.len();
        }
        proof {
            let t = s@.subrange(0, end as int);
            if has_suffix(t, p@) {
                assert(t.subrange(t.len() - p@.len(), t.len() as int) =~= s@.subrange(
                    end - p@.len(),
                    end as int,
                ));
                assert(occurs_at(s@, p@, end - p@.len()));
            }
        }
    }
    s.substring_char(0, end)
}

/// ASCII lower-casing of one character.
fn ascii_lower_char(c: char) -> (r: char)
    ensures
        r == ascii_lower(c),
{
    if 'A' <= c && c <= 'Z' {
        ((c as u8) + 32) as char
    } else {
        c
    }
}

/// `str::eq_ignore_ascii_case`.
pub fn eq_ignore_ascii_case(a: &str, b: &str) -> (r: bool)
    ensures
        r == eq_ascii_case_blind(a@, b@),
{
    let av = chars_vec(a);
    let bv = chars_vec(b);
    if av.len() != bv.len() {
        return false;
    }
    let mut i: usize = 0;
    while i < av.len()
        invariant
            i <= av@.len() == bv@.len(),
            av@ == a@,
            bv@ == b@,
            forall|j: int| 0 <= j < i ==> ascii_lower(a@[j]) == ascii_lower(b@[j]),
        decreases av.len() - i,
    {
        if ascii_lower_char(av[i]) != ascii_lower_char(bv[i]) {
            return false;
        }
        i += 1;
    }
    true
}

/// Equality of the characters of two strings.
pub fn text_eq(a: &str, b: &str) -> (r: bool)
    ensures
        r == (a@ == b@),
{
    a.to_owned() == b.to_owned()
}

/// The position just after the last '/' of `s`, or 0 when it has none.
pub open spec fn after_last_slash(s: Seq<char>) -> int
    decreases s.len(),
{
    if s.len() == 0 {
        0
    } else if s.last() == '/' {
        s.len() as int
    } else {
        after_last_slash(s.drop_last())
    }
}

/// The last '/'-separated segment of `s` that is neither empty nor ".".
pub open spec fn last_named_segment(s: Seq<char>) -> Option<Seq<char>>
    decreases s.len(),
{
    let k = after_last_slash(s);
    let seg = s.subrange(k, s.len() as int);
    if seg.len() > 0 && seg != "."@ {
        Some(seg)
    } else if k <= 0 || k > s.len() {
        None
    } else {
        last_named_segment(s.subrange(0, k - 1))
    }
}

/// The file name of a '/'-separated path, as `Path::file_name` gives it:
/// its last component when that is a name (not "..", not the root, not a
/// lone ".").
pub open spec fn path_file_name(s: Seq<char>) -> Option<Seq<char>> {
    match last_named_segment(s) {
        Some(seg) => if seg == ".."@ {
            None
        } else {
            Some(seg)
        },
        None => None,
    }
}

/// `after_last_slash` of a prefix that ends after the last '/' is its length
/// when it ends in '/' (or is empty), and stays put when a non-'/' is dropped.
proof fn lemma_after_last_slash_step(s: Seq<char>, k: int)
    requires
        0 < k <= s.len(),
        s[k - 1] != '/',
    ensures
        after_last_slash(s.subrange(0, k)) == after_last_slash(s.subrange(0, k - 1)),
{
    assert(s.subrange(0, k).drop_last() =~= s.subrange(0, k - 1));
}

/// `Path::file_name` for '/'-separated paths.
pub fn path_file_name_of(path: &str) -> (r: Option<&str>)
    ensures
        match r {
            Some(n) => path_file_name(path@) == Some(n@),
            None => path_file_name(path@) is None,
        },
{
    proof {
        reveal_strlit(".");
        reveal_strlit("..");
    }
    let v = chars_vec(path);
    let mut end: usize = v.len();
    assert(path@.subrange(0, end as int) =~= path@);
    loop
        invariant
            end <= v@.len(),
            v@ == path@,
            "."@ == seq!['.'],
            ".."@ == seq!['.', '.'],
            last_named_segment(path@) == last_named_segment(path@.subrange(0, end as int)),
        decreases end,
    {
        let ghost prefix = path@.subrange(0, end as int);
        let mut k: usize = end;
        while k > 0 && v[k - 1] != '/'
            invariant
                k <= end <= v@.len(),
                v@ == path@,
                after_last_slash(prefix) == after_last_slash(path@.subrange(0, k as int)),
                prefix == path@.subrange(0, end as int),
            decreases k,
        {
            proof {
                lemma_after_last_slash_step(path@, k as int);
            }
            k -= 1;
        }
        proof {
            if k > 0 {
                assert(path@.subrange(0, k as int).last() == '/');
            }
            assert(prefix.subrange(k as int, prefix.len() as int) =~= path@.subrange(
                k as int,
                end as int,
            ));
        }
        let ghost seg = path@.subrange(k as int, end as int);
        let is_dot = end - k == 1 && v[k] == '.';
        proof {
            if end - k == 1 && seg[0] == '.' {
                assert(seg =~= "."@);
            }
        }
        if end > k && !is_dot {
            let name = path.substring_char(k, end);
            proof {
                if seg.len() == 2 && seg[0] == '.' && seg[1] == '.' {
                    assert(seg =~= ".."@);
                }
            }
            if end - k == 2 && v[k] == '.' && v[k + 1] == '.' {
                return None;
            }
            return Some(name);
        }
        if k == 0 {
            return None;
        }
        proof {
            assert(prefix.subrange(0, k - 1) =~= path@.subrange(0, k - 1));
        }
        end = k - 1;
    }
}

} // verus!
