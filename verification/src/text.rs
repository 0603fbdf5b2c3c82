use vstd::prelude::*;
use vstd::utf8::*;

verus! {

// ---------------------------------------------------------------------------
// Model of a source text: a sequence of chars whose positions are measured in
// UTF-8 bytes (the offsets used by spans) or in UTF-16 code units (the
// `character` field of an editor position).
// ---------------------------------------------------------------------------

/// Number of bytes of the UTF-8 encoding of `c`.
pub open spec fn utf8_width(c: char) -> nat {
    let u = c as u32;
    if u < 0x80 {
        1
    } else if u < 0x800 {
        2
    } else if u < 0x10000 {
        3
    } else {
        4
    }
}

/// Number of UTF-16 code units of `c`.
pub open spec fn utf16_width(c: char) -> nat {
    if (c as u32) < 0x10000 {
        1
    } else {
        2
    }
}

/// Length in UTF-8 bytes of a char sequence.
pub open spec fn byte_len(cs: Seq<char>) -> nat
    decreases cs.len(),
{
    if cs.len() == 0 {
        0
    } else {
        byte_len(cs.drop_last()) + utf8_width(cs.last())
    }
}

/// Length in UTF-16 code units of a char sequence.
pub open spec fn utf16_len(cs: Seq<char>) -> nat
    decreases cs.len(),
{
    if cs.len() == 0 {
        0
    } else {
        utf16_len(cs.drop_last()) + utf16_width(cs.last())
    }
}

/// Byte offset of the char with index `i` (or of the end, for `i == cs.len()`).
pub open spec fn byte_offset(cs: Seq<char>, i: int) -> nat {
    byte_len(cs.take(i))
}

/// Whether `offset` is the byte offset of some char index, i.e. a char boundary.
pub open spec fn is_boundary(cs: Seq<char>, offset: int) -> bool {
    exists|i: int| 0 <= i <= cs.len() && byte_offset(cs, i) == offset
}

/// The char index whose byte offset is `offset` (meaningful on boundaries).
pub open spec fn index_of_offset(cs: Seq<char>, offset: int) -> int {
    choose|i: int| 0 <= i <= cs.len() && byte_offset(cs, i) == offset
}

/// Unicode `White_Space` property, which is what `char::is_whitespace` tests.
pub open spec fn is_white_space(c: char) -> bool {
    let u = c as u32;
    ||| 0x9 <= u <= 0xD
    ||| u == 0x20
    ||| u == 0x85
    ||| u == 0xA0
    ||| u == 0x1680
    ||| 0x2000 <= u <= 0x200A
    ||| u == 0x2028
    ||| u == 0x2029
    ||| u == 0x202F
    ||| u == 0x205F
    ||| u == 0x3000
}

pub open spec fn is_ascii_digit_char(c: char) -> bool {
    '0' <= c && c <= '9'
}

pub open spec fn is_ascii_letter(c: char) -> bool {
    ('a' <= c && c <= 'z') || ('A' <= c && c <= 'Z')
}

pub open spec fn is_ascii_alnum_char(c: char) -> bool {
    is_ascii_letter(c) || is_ascii_digit_char(c)
}

/// Name for the result of `char::is_alphabetic` (Unicode `Alphabetic` property).
pub uninterp spec fn unicode_alphabetic(c: char) -> bool;

/// Name for the result of `char::is_alphanumeric`.
pub uninterp spec fn unicode_alphanumeric(c: char) -> bool;

// ---------------------------------------------------------------------------
// Trusted std calls.
// ---------------------------------------------------------------------------

/// `char::is_alphabetic`. Claims: the result is the (named) Unicode `Alphabetic`
/// property, and on ASCII it holds exactly of the letters `a-z`, `A-Z`.
#[verifier::external_body]
pub fn char_is_alphabetic(c: char) -> (r: bool)
    ensures
        r == unicode_alphabetic(c),
        (c as u32) < 0x80 ==> (r == is_ascii_letter(c)),
{
    c.is_alphabetic()
}

/// `char::is_alphanumeric`. Claims: the result is the (named) property, it
/// holds of every alphabetic char, and on ASCII it holds exactly of letters
/// and digits.
#[verifier::external_body]
pub fn char_is_alphanumeric(c: char) -> (r: bool)
    ensures
        r == unicode_alphanumeric(c),
        unicode_alphabetic(c) ==> r,
        (c as u32) < 0x80 ==> (r == is_ascii_alnum_char(c)),
{
    c.is_alphanumeric()
}

/// `String::push`: appends one char.
#[verifier::external_body]
pub fn string_push(s: &mut String, c: char)
    ensures
        final(s)@ == old(s)@.push(c),
{
    s.push(c);
}

// ---------------------------------------------------------------------------
// Verified char helpers.
// ---------------------------------------------------------------------------

/// `char::len_utf8`.
pub fn char_len_utf8(c: char) -> (n: usize)
    ensures
        n == utf8_width(c),
        1 <= n <= 4,
{
    let u = c as u32;
    if u < 0x80 {
        1
    } else if u < 0x800 {
        2
    } else if u < 0x10000 {
        3
    } else {
        4
    }
}

/// `char::len_utf16`.
pub fn char_len_utf16(c: char) -> (n: usize)
    ensures
        n == utf16_width(c),
        1 <= n <= 2,
{
    if (c as u32) < 0x10000 {
        1
    } else {
        2
    }
}

/// `char::is_whitespace`.
pub fn char_is_whitespace(c: char) -> (r: bool)
    ensures
        r == is_white_space(c),
{
    let u = c as u32;
    (0x9 <= u && u <= 0xD) || u == 0x20 || u == 0x85 || u == 0xA0 || u == 0x1680 || (0x2000
        <= u && u <= 0x200A) || u == 0x2028 || u == 0x2029 || u == 0x202F || u == 0x205F || u
        == 0x3000
}

/// `char::is_ascii_digit`.
pub fn char_is_ascii_digit(c: char) -> (r: bool)
    ensures
        r == is_ascii_digit_char(c),
{
    '0' <= c && c <= '9'
}

/// `char::is_ascii_alphanumeric`.
pub fn char_is_ascii_alphanumeric(c: char) -> (r: bool)
    ensures
        r == is_ascii_alnum_char(c),
{
    ('a' <= c && c <= 'z') || ('A' <= c && c <= 'Z') || ('0' <= c && c <= '9')
}

// ---------------------------------------------------------------------------
// Lemmas about byte offsets.
// ---------------------------------------------------------------------------

pub proof fn lemma_byte_len_concat(a: Seq<char>, b: Seq<char>)
    ensures
        byte_len(a + b) == byte_len(a) + byte_len(b),
    decreases b.len(),
{
    if b.len() == 0 {
        assert(a + b =~= a);
    } else {
        assert((a + b).drop_last() =~= a + b.drop_last());
        assert((a + b).last() == b.last());
        lemma_byte_len_concat(a, b.drop_last());
    }
}

/// The bytes of `cs[i..j]` lie between the byte offsets of `i` and `j`.
pub proof fn lemma_byte_offset_split(cs: Seq<char>, i: int, j: int)
    requires
        0 <= i <= j <= cs.len(),
    ensures
        byte_offset(cs, j) == byte_offset(cs, i) + byte_len(cs.subrange(i, j)),
{
    assert(cs.take(j) =~= cs.take(i) + cs.subrange(i, j));
    lemma_byte_len_concat(cs.take(i), cs.subrange(i, j));
}

pub proof fn lemma_utf16_len_concat(a: Seq<char>, b: Seq<char>)
    ensures
        utf16_len(a + b) == utf16_len(a) + utf16_len(b),
    decreases b.len(),
{
    if b.len() == 0 {
        assert(a + b =~= a);
    } else {
        assert((a + b).drop_last() =~= a + b.drop_last());
        assert((a + b).last() == b.last());
        lemma_utf16_len_concat(a, b.drop_last());
    }
}

proof fn lemma_encode_scalar_len(c: char)
    ensures
        encode_scalar(c as u32).len() == utf8_width(c),
{
    char_is_scalar(c);
}

/// The byte length of a char sequence is the length of its UTF-8 encoding,
/// which is what `str::len` returns.
pub proof fn lemma_byte_len_is_encoding_len(cs: Seq<char>)
    ensures
        byte_len(cs) == encode_utf8(cs).len(),
    decreases cs.len(),
{
    if cs.len() > 0 {
        lemma_byte_len_is_encoding_len(cs.drop_first());
        lemma_encode_scalar_len(cs[0]);
        assert(cs =~= seq![cs[0]] + cs.drop_first());
        lemma_byte_len_concat(seq![cs[0]], cs.drop_first());
        assert(seq![cs[0]].drop_last() =~= Seq::<char>::empty());
        assert(byte_len(Seq::<char>::empty()) == 0);
        assert(byte_len(seq![cs[0]]) == utf8_width(cs[0]));
        assert(encode_utf8(cs) == encode_scalar(cs[0] as u32) + encode_utf8(cs.drop_first()));
    }
}

/// `str::len`: the byte length of the text.
pub fn str_byte_len(s: &str) -> (n: usize)
    ensures
        n == byte_len(s@),
        n == s.len(),
{
    let bytes = s.as_bytes();
    proof {
        lemma_byte_len_is_encoding_len(s@);
    }
    bytes.len()
}

/// The offset of the next char index advances by the width of the char.
pub proof fn lemma_byte_offset_step(cs: Seq<char>, i: int)
    requires
        0 <= i < cs.len(),
    ensures
        byte_offset(cs, i + 1) == byte_offset(cs, i) + utf8_width(cs[i]),
{
    assert(cs.take(i + 1).drop_last() =~= cs.take(i));
}

pub proof fn lemma_utf16_offset_step(cs: Seq<char>, i: int)
    requires
        0 <= i < cs.len(),
    ensures
        utf16_len(cs.take(i + 1)) == utf16_len(cs.take(i)) + utf16_width(cs[i]),
{
    assert(cs.take(i + 1).drop_last() =~= cs.take(i));
}

/// Byte offsets are strictly increasing in the char index.
pub proof fn lemma_byte_offset_strict(cs: Seq<char>, i: int, j: int)
    requires
        0 <= i < j <= cs.len(),
    ensures
        byte_offset(cs, i) < byte_offset(cs, j),
    decreases j - i,
{
    lemma_byte_offset_step(cs, j - 1);
    if i < j - 1 {
        lemma_byte_offset_strict(cs, i, j - 1);
    }
}

pub proof fn lemma_byte_offset_mono(cs: Seq<char>, i: int, j: int)
    requires
        0 <= i <= j <= cs.len(),
    ensures
        byte_offset(cs, i) <= byte_offset(cs, j),
{
    if i < j {
        lemma_byte_offset_strict(cs, i, j);
    }
}

/// Byte offsets determine char indices.
pub proof fn lemma_byte_offset_injective(cs: Seq<char>, i: int, j: int)
    requires
        0 <= i <= cs.len(),
        0 <= j <= cs.len(),
        byte_offset(cs, i) == byte_offset(cs, j),
    ensures
        i == j,
{
    if i < j {
        lemma_byte_offset_strict(cs, i, j);
    } else if j < i {
        lemma_byte_offset_strict(cs, j, i);
    }
}

pub proof fn lemma_byte_offset_end(cs: Seq<char>)
    ensures
        byte_offset(cs, cs.len() as int) == byte_len(cs),
{
    assert(cs.take(cs.len() as int) =~= cs);
}

/// The byte offset of index `i` bounds the byte length from below.
pub proof fn lemma_byte_offset_bound(cs: Seq<char>, i: int)
    requires
        0 <= i <= cs.len(),
    ensures
        byte_offset(cs, i) <= byte_len(cs),
{
    lemma_byte_offset_mono(cs, i, cs.len() as int);
    lemma_byte_offset_end(cs);
}

/// Char index of a boundary offset.
pub proof fn lemma_index_of_offset(cs: Seq<char>, i: int)
    requires
        0 <= i <= cs.len(),
    ensures
        is_boundary(cs, byte_offset(cs, i) as int),
        index_of_offset(cs, byte_offset(cs, i) as int) == i,
{
    let o = byte_offset(cs, i) as int;
    assert(is_boundary(cs, o));
    let k = index_of_offset(cs, o);
    lemma_byte_offset_injective(cs, i, k);
}

// ---------------------------------------------------------------------------
// Decoding a source text into chars with their byte offsets.
// ---------------------------------------------------------------------------

/// The chars of `s` (what `str::chars` yields).
pub fn source_chars(s: &str) -> (v: Vec<char>)
    ensures
        v@ == s@,
{
    let mut v: Vec<char> = Vec::new();
    for c in it: s.chars()
        invariant
            v@ == it.seq().take(it.index() as int),
            it.seq() == s@,
    {
        v.push(c);
    }
    v
}

/// Whether `v` pairs every char of `cs` with its byte offset, as
/// `str::char_indices` does.
pub open spec fn are_char_indices(v: Seq<(usize, char)>, cs: Seq<char>) -> bool {
    &&& v.len() == cs.len()
    &&& forall|k: int| #![trigger v[k]] 0 <= k < v.len() ==> v[k].0 == byte_offset(cs, k) && v[k].1 == cs[k]
}

/// The chars of `s` paired with their byte offsets (what `str::char_indices` yields).
pub fn char_indices(s: &str) -> (v: Vec<(usize, char)>)
    ensures
        are_char_indices(v@, s@),
        byte_len(s@) == s.len(),
{
    let chars = source_chars(s);
    let _n = str_byte_len(s);
    let mut v: Vec<(usize, char)> = Vec::new();
    let mut offset: usize = 0;
    let mut i: usize = 0;
    while i < chars.len()
        invariant
            chars@ == s@,
            byte_len(s@) == s.len(),
            i <= chars.len(),
            v@.len() == i,
            offset == byte_offset(s@, i as int),
            forall|k: int| #![trigger v@[k]] 0 <= k < i ==> v@[k].0 == byte_offset(s@, k) && v@[k].1 == s@[k],
        decreases chars.len() - i,
    {
        let c = chars[i];
        v.push((offset, c));
        proof {
            lemma_byte_offset_step(s@, i as int);
            lemma_byte_offset_bound(s@, i + 1);
        }
        offset = offset + char_len_utf8(c);
        i = i + 1;
    }
    v
}

/// The string made of the chars `cs[from..to]`.
pub fn string_from_chars(cs: &Vec<char>, from: usize, to: usize) -> (s: String)
    requires
        from <= to <= cs@.len(),
    ensures
        s@ == cs@.subrange(from as int, to as int),
{
    let mut s = String::new();
    let mut i = from;
    while i < to
        invariant
            from <= i <= to <= cs@.len(),
            s@ == cs@.subrange(from as int, i as int),
        decreases to - i,
    {
        string_push(&mut s, cs[i]);
        assert(cs@.subrange(from as int, i + 1) =~= cs@.subrange(from as int, i as int).push(cs@[i as int]));
        i = i + 1;
    }
    s
}

/// The char index at a boundary offset, found by a scan of the char indices.
pub(crate) fn char_index_at(cis: &Vec<(usize, char)>, total: usize, offset: usize, Ghost(cs): Ghost<Seq<char>>) -> (k: usize)
    requires
        are_char_indices(cis@, cs),
        total == byte_len(cs),
        is_boundary(cs, offset as int),
    ensures
        k as int == index_of_offset(cs, offset as int),
        k <= cs.len(),
{
    let mut k: usize = 0;
    while k < cis.len() && cis[k].0 != offset
        invariant
            are_char_indices(cis@, cs),
            k <= cs.len(),
            forall|m: int| 0 <= m < k ==> byte_offset(cs, m) != offset,
        decreases cs.len() - k,
    {
        k = k + 1;
    }
    proof {
        let w = choose|i: int| 0 <= i <= cs.len() && byte_offset(cs, i) == offset;
        if k < cs.len() {
            assert(cis@[k as int].0 == byte_offset(cs, k as int));
        } else {
            assert(w == k) by {
                if w < k {
                    assert(byte_offset(cs, w) != offset);
                }
            }
        }
        lemma_index_of_offset(cs, k as int);
    }
    k
}

/// The text between two char boundaries `from <= to` of `s` (what
/// `&s[from..to]` holds).
pub fn substring(s: &str, from: usize, to: usize) -> (r: String)
    requires
        is_boundary(s@, from as int),
        is_boundary(s@, to as int),
        from <= to,
    ensures
        r@ == s@.subrange(index_of_offset(s@, from as int), index_of_offset(s@, to as int)),
{
    let ghost cs = s@;
    let cis = char_indices(s);
    let chars = source_chars(s);
    let total = str_byte_len(s);
    let i = char_index_at(&cis, total, from, Ghost(cs));
    let j = char_index_at(&cis, total, to, Ghost(cs));
    proof {
        if j < i {
            lemma_byte_offset_strict(cs, j as int, i as int);
        }
    }
    string_from_chars(&chars, i, j)
}

/// Whether the chars `cs[from..to]` spell out `lit`.
pub fn chars_equal_str(cs: &Vec<char>, from: usize, to: usize, lit: &str) -> (eq: bool)
    requires
        from <= to <= cs@.len(),
    ensures
        eq == (cs@.subrange(from as int, to as int) == lit@),
{
    let n = lit.unicode_len();
    if to - from != n {
        proof {
            if cs@.subrange(from as int, to as int) == lit@ {
                assert(cs@.subrange(from as int, to as int).len() == lit@.len());
            }
        }
        return false;
    }
    let mut k: usize = 0;
    while k < n
        invariant
            from <= to <= cs@.len(),
            to - from == n == lit@.len(),
            k <= n,
            forall|j: int| 0 <= j < k ==> cs@[from + j] == lit@[j],
        decreases n - k,
    {
        if cs[from + k] != lit.get_char(k) {
            proof {
                assert(cs@.subrange(from as int, to as int)[k as int] != lit@[k as int]);
            }
            return false;
        }
        k = k + 1;
    }
    assert(cs@.subrange(from as int, to as int) =~= lit@);
    true
}

/// Whether the chars `a` and `b` are equal as strings.
pub fn str_equal(a: &str, b: &str) -> (eq: bool)
    ensures
        eq == (a@ == b@),
{
    let cs = source_chars(a);
    assert(cs@.subrange(0, cs@.len() as int) =~= cs@);
    chars_equal_str(&cs, 0, cs.len(), b)
}

} // verus!
