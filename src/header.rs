//! The header block: where it ends, and the body length that it declares.
use vstd::prelude::*;
use vstd::slice::slice_subrange;
use crate::number::{parse_usize, parsed_usize};

verus! {

/// The header terminator CR LF CR LF starts at `i`.
pub open spec fn terminator_at(s: Seq<u8>, i: int) -> bool {
    0 <= i && i + 4 <= s.len() && s[i] == 13 && s[i + 1] == 10 && s[i + 2] == 13 && s[i + 3]
        == 10
}

/// `i` is where the first header terminator starts.
pub open spec fn is_boundary(s: Seq<u8>, i: int) -> bool {
    terminator_at(s, i) && forall|j: int| 0 <= j < i ==> !terminator_at(s, j)
}

/// The offset of the first header terminator in `s`, if any.
pub open spec fn boundary_of(s: Seq<u8>) -> Option<int> {
    if exists|i: int| is_boundary(s, i) {
        Some(choose|i: int| is_boundary(s, i))
    } else {
        None
    }
}

pub proof fn lemma_boundary_unique(s: Seq<u8>, i: int)
    requires
        is_boundary(s, i),
    ensures
        boundary_of(s) == Some(i),
{
    let k = choose|k: int| is_boundary(s, k);
    assert(is_boundary(s, k));
    if k < i {
        assert(!terminator_at(s, k));
    } else if i < k {
        assert(!terminator_at(s, i));
    }
}

/// Finds the first header terminator by scanning the whole of `buf`.
pub fn find_boundary(buf: &[u8]) -> (r: Option<usize>)
    ensures
        r matches Some(i) ==> is_boundary(buf@, i as int),
        r is None ==> forall|i: int| !terminator_at(buf@, i),
        r matches Some(i) ==> boundary_of(buf@) == Some(i as int),
        r is None ==> boundary_of(buf@) is None,
{
    let n = buf.len();
    let mut i: usize = 0;
    while n >= 4 && i <= n - 4
        invariant
            n == buf@.len(),
            forall|j: int| 0 <= j < i ==> !terminator_at(buf@, j),
        decreases n - i,
    {
        if buf[i] == 13u8 && buf[i + 1] == 10u8 && buf[i + 2] == 13u8 && buf[i + 3] == 10u8 {
            proof {
                lemma_boundary_unique(buf@, i as int);
            }
            return Some(i);
        }
        i = i + 1;
    }
    assert(forall|j: int| !terminator_at(buf@, j));
    None
}

/// ASCII upper-case letters to lower case; other bytes unchanged.
pub open spec fn ascii_lower(b: u8) -> u8 {
    if 65 <= b <= 90 {
        (b + 32) as u8
    } else {
        b
    }
}

/// The header block read case-insensitively.
pub open spec fn lowered(h: Seq<u8>) -> Seq<u8> {
    h.map_values(|b: u8| ascii_lower(b))
}

/// `content-length:` in lower case.
pub open spec fn length_key() -> Seq<u8> {
    seq![99u8, 111, 110, 116, 101, 110, 116, 45, 108, 101, 110, 103, 116, 104, 58]
}

/// `transfer-encoding:` in lower case.
pub open spec fn transfer_encoding_key() -> Seq<u8> {
    seq![116u8, 114, 97, 110, 115, 102, 101, 114, 45, 101, 110, 99, 111, 100, 105, 110, 103, 58]
}

/// A line starts at `s` and begins with `key`.
pub open spec fn line_starts_with(l: Seq<u8>, s: int, key: Seq<u8>) -> bool {
    0 <= s && (s == 0 || l[s - 1] == 10) && s + key.len() <= l.len() && l.subrange(
        s,
        s + key.len(),
    ) == key
}

/// A line starts at `s` and begins with the length key.
pub open spec fn key_line_at(l: Seq<u8>, s: int) -> bool {
    line_starts_with(l, s, length_key())
}

/// Some line of the header block `h` begins with `transfer-encoding:` in any
/// letter case.
pub open spec fn has_transfer_encoding(h: Seq<u8>) -> bool {
    exists|s: int| line_starts_with(lowered(h), s, transfer_encoding_key())
}

/// `s` starts the first line that begins with the length key.
pub open spec fn is_first_key_line(l: Seq<u8>, s: int) -> bool {
    key_line_at(l, s) && forall|t: int| 0 <= t < s ==> !key_line_at(l, t)
}

/// Where the field that starts at `i` ends: the next `:` or line feed, or the end.
pub open spec fn field_end(l: Seq<u8>, i: int) -> int
    decreases l.len() - i,
{
    if i >= l.len() {
        l.len() as int
    } else if l[i] == 58 || l[i] == 10 {
        i
    } else {
        field_end(l, i + 1)
    }
}

/// One-byte white space: tab, line feed, vertical tab, form feed, carriage
/// return and space.
pub open spec fn is_ascii_space(b: u8) -> bool {
    b == 32 || (9 <= b <= 13)
}

/// The UTF-8 encoding of a three-byte white space character: U+1680,
/// U+2000 to U+200A, U+2028, U+2029, U+202F, U+205F and U+3000.
pub open spec fn is_space3(x: u8, y: u8, z: u8) -> bool {
    (x == 0xE1 && y == 0x9A && z == 0x80) || (x == 0xE2 && y == 0x80 && ((0x80 <= z <= 0x8A)
        || z == 0xA8 || z == 0xA9 || z == 0xAF)) || (x == 0xE2 && y == 0x81 && z == 0x9F) || (x
        == 0xE3 && y == 0x80 && z == 0x80)
}

/// The length of the UTF-8 encoded Unicode white space character that starts
/// `s` (U+0085 and U+00A0 take two bytes), or 0 where `s` starts with none.
pub open spec fn space_prefix_len(s: Seq<u8>) -> int {
    if s.len() >= 1 && is_ascii_space(s[0]) {
        1
    } else if s.len() >= 2 && s[0] == 0xC2 && (s[1] == 0x85 || s[1] == 0xA0) {
        2
    } else if s.len() >= 3 && is_space3(s[0], s[1], s[2]) {
        3
    } else {
        0
    }
}

/// The length of the UTF-8 encoded Unicode white space character that ends
/// `s`, or 0 where `s` ends with none.
pub open spec fn space_suffix_len(s: Seq<u8>) -> int {
    let n = s.len() as int;
    if n >= 1 && is_ascii_space(s[n - 1]) {
        1
    } else if n >= 2 && s[n - 2] == 0xC2 && (s[n - 1] == 0x85 || s[n - 1] == 0xA0) {
        2
    } else if n >= 3 && is_space3(s[n - 3], s[n - 2], s[n - 1]) {
        3
    } else {
        0
    }
}

/// `s` without its leading white space.
pub open spec fn trim_start(s: Seq<u8>) -> Seq<u8>
    decreases s.len(),
{
    let k = space_prefix_len(s);
    if 0 < k <= s.len() {
        trim_start(s.subrange(k, s.len() as int))
    } else {
        s
    }
}

/// `s` without its trailing white space.
pub open spec fn trim_end(s: Seq<u8>) -> Seq<u8>
    decreases s.len(),
{
    let k = space_suffix_len(s);
    if 0 < k <= s.len() {
        trim_end(s.subrange(0, s.len() - k))
    } else {
        s
    }
}

fn space3(x: u8, y: u8, z: u8) -> (r: bool)
    ensures
        r == is_space3(x, y, z),
{
    (x == 0xE1u8 && y == 0x9Au8 && z == 0x80u8) || (x == 0xE2u8 && y == 0x80u8 && ((0x80u8 <= z
        && z <= 0x8Au8) || z == 0xA8u8 || z == 0xA9u8 || z == 0xAFu8)) || (x == 0xE2u8 && y
        == 0x81u8 && z == 0x9Fu8) || (x == 0xE3u8 && y == 0x80u8 && z == 0x80u8)
}

fn ascii_space(b: u8) -> (r: bool)
    ensures
        r == is_ascii_space(b),
{
    b == 32u8 || (9u8 <= b && b <= 13u8)
}

fn leading_space_len(l: &Vec<u8>, a: usize, e: usize) -> (k: usize)
    requires
        a <= e <= l@.len(),
    ensures
        k as int == space_prefix_len(l@.subrange(a as int, e as int)),
{
    let ghost s = l@.subrange(a as int, e as int);
    let n = e - a;
    if n >= 1 && ascii_space(l[a]) {
        assert(s[0] == l@[a as int]);
        return 1;
    }
    if n >= 1 {
        assert(s[0] == l@[a as int]);
    }
    if n >= 2 && l[a] == 0xC2u8 && (l[a + 1] == 0x85u8 || l[a + 1] == 0xA0u8) {
        assert(s[1] == l@[a + 1]);
        return 2;
    }
    if n >= 2 {
        assert(s[1] == l@[a + 1]);
    }
    if n >= 3 && space3(l[a], l[a + 1], l[a + 2]) {
        assert(s[2] == l@[a + 2]);
        return 3;
    }
    if n >= 3 {
        assert(s[2] == l@[a + 2]);
    }
    0
}

fn trailing_space_len(l: &Vec<u8>, a: usize, e: usize) -> (k: usize)
    requires
        a <= e <= l@.len(),
    ensures
        k as int == space_suffix_len(l@.subrange(a as int, e as int)),
{
    let ghost s = l@.subrange(a as int, e as int);
    let n = e - a;
    if n >= 1 && ascii_space(l[e - 1]) {
        assert(s[n - 1] == l@[e - 1]);
        return 1;
    }
    if n >= 1 {
        assert(s[n - 1] == l@[e - 1]);
    }
    if n >= 2 && l[e - 2] == 0xC2u8 && (l[e - 1] == 0x85u8 || l[e - 1] == 0xA0u8) {
        assert(s[n - 2] == l@[e - 2]);
        return 2;
    }
    if n >= 2 {
        assert(s[n - 2] == l@[e - 2]);
    }
    if n >= 3 && space3(l[e - 3], l[e - 2], l[e - 1]) {
        assert(s[n - 3] == l@[e - 3]);
        return 3;
    }
    if n >= 3 {
        assert(s[n - 3] == l@[e - 3]);
    }
    0
}

/// The value text of the first length line of the lowered block `l`, with
/// Unicode white space trimmed from both ends.
pub open spec fn length_field(l: Seq<u8>, s: int) -> Seq<u8> {
    trim_end(trim_start(l.subrange(s + 15, field_end(l, s + 15))))
}

/// The body length that a header block declares: the value of the first line
/// whose key matches `content-length:` in any letter case, read as far as the
/// next `:` or the end of the line, with white space around it trimmed. It is
/// zero where no line matches or its value is no unsigned number that fits.
/// Later matching lines are not looked at.
pub open spec fn declared_length_of(h: Seq<u8>) -> nat {
    let l = lowered(h);
    if exists|s: int| is_first_key_line(l, s) {
        let s = choose|s: int| is_first_key_line(l, s);
        match parsed_usize(length_field(l, s)) {
            Some(v) => v,
            None => 0,
        }
    } else {
        0
    }
}

fn lower_copy(h: &[u8]) -> (r: Vec<u8>)
    ensures
        r@ == lowered(h@),
{
    let mut r: Vec<u8> = Vec::new();
    let mut i: usize = 0;
    while i < h.len()
        invariant
            i <= h@.len(),
            r@ =~= lowered(h@).subrange(0, i as int),
        decreases h.len() - i,
    {
        let b = h[i];
        let c = if 65u8 <= b && b <= 90u8 {
            b + 32u8
        } else {
            b
        };
        r.push(c);
        i = i + 1;
    }
    assert(r@ =~= lowered(h@));
    r
}

fn line_starts_with_exec(l: &Vec<u8>, s: usize, key: &Vec<u8>) -> (r: bool)
    ensures
        r == line_starts_with(l@, s as int, key@),
{
    let m = key.len();
    if s > l.len() || l.len() - s < m {
        return false;
    }
    if s > 0 && l[s - 1] != 10u8 {
        return false;
    }
    let mut k: usize = 0;
    while k < m
        invariant
            m == key@.len(),
            s + m <= l@.len(),
            l@.len() <= usize::MAX,
            k <= m,
            forall|j: int| 0 <= j < k ==> l@[s + j] == key@[j],
        decreases m - k,
    {
        if l[s + k] != key[k] {
            assert(l@.subrange(s as int, s + m)[k as int] != key@[k as int]);
            return false;
        }
        k = k + 1;
    }
    assert(l@.subrange(s as int, s + m) =~= key@);
    true
}

fn key_line_at_exec(l: &Vec<u8>, s: usize) -> (r: bool)
    ensures
        r == key_line_at(l@, s as int),
{
    let key: Vec<u8> = vec![99u8, 111, 110, 116, 101, 110, 116, 45, 108, 101, 110, 103, 116, 104, 58];
    assert(key@ =~= length_key());
    line_starts_with_exec(l, s, &key)
}

/// Whether some line of the header block `h` begins with `transfer-encoding:`
/// in any letter case.
pub fn declares_transfer_encoding(h: &[u8]) -> (r: bool)
    ensures
        r == has_transfer_encoding(h@),
{
    let key: Vec<u8> = vec![
        116u8, 114, 97, 110, 115, 102, 101, 114, 45, 101, 110, 99, 111, 100, 105, 110, 103, 58,
    ];
    assert(key@ =~= transfer_encoding_key());
    let l = lower_copy(h);
    let n = l.len();
    let mut s: usize = 0;
    while s < n
        invariant
            n == l@.len(),
            l@ == lowered(h@),
            key@ == transfer_encoding_key(),
            forall|t: int| 0 <= t < s ==> !line_starts_with(l@, t, key@),
        decreases n - s,
    {
        if line_starts_with_exec(&l, s, &key) {
            return true;
        }
        s = s + 1;
    }
    assert forall|t: int| !line_starts_with(l@, t, key@) by {
        if t >= s {
            assert(!(t + key@.len() <= l@.len()));
        }
    }
    false
}

/// The body length declared by the header block `h` (the bytes before the
/// terminator).
pub fn declared_length(h: &[u8]) -> (r: usize)
    ensures
        r as nat == declared_length_of(h@),
{
    let l = lower_copy(h);
    let n = l.len();
    let mut s: usize = 0;
    let mut found: bool = false;
    while !found && s < n
        invariant
            n == l@.len(),
            l@ == lowered(h@),
            s <= n,
            found ==> s < n && key_line_at(l@, s as int),
            forall|t: int| 0 <= t < s ==> !key_line_at(l@, t),
        decreases n - s + (if found { 0int } else { 1int }),
    {
        if key_line_at_exec(&l, s) {
            found = true;
        } else {
            s = s + 1;
        }
    }
    if !found {
        assert forall|t: int| !is_first_key_line(l@, t) by {
            if 0 <= t < s {
            } else {
                assert(!key_line_at(l@, t));
            }
        }
        return 0;
    }
    assert(is_first_key_line(l@, s as int));
    proof {
        let c = choose|c: int| is_first_key_line(l@, c);
        if c < s {
            assert(!key_line_at(l@, c));
        } else if s < c {
            assert(!key_line_at(l@, s as int));
        }
    }
    let start = s + 15;
    let mut e: usize = start;
    while e < n && l[e] != 58u8 && l[e] != 10u8
        invariant
            n == l@.len(),
            start <= e <= n,
            field_end(l@, start as int) == field_end(l@, e as int),
        decreases n - e,
    {
        e = e + 1;
    }
    let mut a: usize = start;
    let ghost v = l@.subrange(start as int, e as int);
    let mut k: usize = leading_space_len(&l, a, e);
    while k > 0
        invariant
            start <= a <= e <= n,
            n == l@.len(),
            k as int == space_prefix_len(l@.subrange(a as int, e as int)),
            trim_start(v) == trim_start(l@.subrange(a as int, e as int)),
        decreases e - a,
    {
        assert(l@.subrange(a as int, e as int).subrange(k as int, e - a) =~= l@.subrange(
            a + k,
            e as int,
        ));
        a = a + k;
        k = leading_space_len(&l, a, e);
    }
    assert(trim_start(l@.subrange(a as int, e as int)) == l@.subrange(a as int, e as int));
    let mut b: usize = e;
    let mut k: usize = trailing_space_len(&l, a, b);
    while k > 0
        invariant
            start <= a <= b <= e <= n,
            n == l@.len(),
            k as int == space_suffix_len(l@.subrange(a as int, b as int)),
            trim_end(trim_start(v)) == trim_end(l@.subrange(a as int, b as int)),
        decreases b - a,
    {
        assert(l@.subrange(a as int, b as int).subrange(0, b - a - k) =~= l@.subrange(
            a as int,
            b - k,
        ));
        b = b - k;
        k = trailing_space_len(&l, a, b);
    }
    assert(trim_end(l@.subrange(a as int, b as int)) == l@.subrange(a as int, b as int));
    let field = slice_subrange(l.as_slice(), a, b);
    match parse_usize(field) {
        Some(v) => v,
        None => 0,
    }
}

/// The first terminator of a buffer stays the first once more bytes follow.
pub proof fn lemma_boundary_of_extension(p: Seq<u8>, q: Seq<u8>, b: int)
    requires
        boundary_of(p) == Some(b),
        p.len() <= q.len(),
        q.subrange(0, p.len() as int) == p,
    ensures
        boundary_of(q) == Some(b),
{
    let c = choose|i: int| is_boundary(p, i);
    assert(is_boundary(p, b));
    assert(p[b] == q[b] && p[b + 1] == q[b + 1] && p[b + 2] == q[b + 2] && p[b + 3] == q[b + 3]) by {
        assert(q.subrange(0, p.len() as int)[b] == q[b]);
        assert(q.subrange(0, p.len() as int)[b + 1] == q[b + 1]);
        assert(q.subrange(0, p.len() as int)[b + 2] == q[b + 2]);
        assert(q.subrange(0, p.len() as int)[b + 3] == q[b + 3]);
    }
    assert forall|j: int| 0 <= j < b implies !terminator_at(q, j) by {
        assert(!terminator_at(p, j));
        assert(q.subrange(0, p.len() as int)[j] == q[j]);
        assert(q.subrange(0, p.len() as int)[j + 1] == q[j + 1]);
        assert(q.subrange(0, p.len() as int)[j + 2] == q[j + 2]);
        assert(q.subrange(0, p.len() as int)[j + 3] == q[j + 3]);
    }
    lemma_boundary_unique(q, b);
}

/// The declared length is read case-insensitively: two header blocks that
/// differ only in the letter case of ASCII letters declare the same length
/// (`content-length: 5` and `Content-Length: 5` alike).
pub proof fn lemma_declared_length_ignores_case(h1: Seq<u8>, h2: Seq<u8>)
    requires
        h1.len() == h2.len(),
        forall|i: int| 0 <= i < h1.len() ==> ascii_lower(#[trigger] h1[i]) == ascii_lower(h2[i]),
    ensures
        declared_length_of(h1) == declared_length_of(h2),
{
    assert(lowered(h1) =~= lowered(h2));
}

} // verus!
