use vstd::prelude::*;
use vstd::string::StringExecFns;

use crate::text::{char_is_whitespace, is_white_space, source_chars, string_from_chars, string_push};

verus! {

// ---------------------------------------------------------------------------
// Specifications of the `str` operations used by the language server helpers.
// ---------------------------------------------------------------------------

pub open spec fn is_prefix_of(p: Seq<char>, s: Seq<char>) -> bool {
    p.len() <= s.len() && s.take(p.len() as int) == p
}

pub open spec fn is_suffix_of(p: Seq<char>, s: Seq<char>) -> bool {
    p.len() <= s.len() && s.skip(s.len() - p.len()) == p
}

/// `s` without its leading whitespace.
pub open spec fn trim_start_spec(s: Seq<char>) -> Seq<char>
    decreases s.len(),
{
    if s.len() > 0 && is_white_space(s[0]) {
        trim_start_spec(s.drop_first())
    } else {
        s
    }
}

/// `s` without its trailing whitespace.
pub open spec fn trim_end_spec(s: Seq<char>) -> Seq<char>
    decreases s.len(),
{
    if s.len() > 0 && is_white_space(s.last()) {
        trim_end_spec(s.drop_last())
    } else {
        s
    }
}

/// `s` without leading and trailing whitespace (what `str::trim` gives).
pub open spec fn trim_spec(s: Seq<char>) -> Seq<char> {
    trim_end_spec(trim_start_spec(s))
}

/// Index of the first occurrence of `c` in `s`.
pub open spec fn find_char(s: Seq<char>, c: char) -> Option<int>
    decreases s.len(),
{
    if s.len() == 0 {
        None
    } else if s[0] == c {
        Some(0)
    } else {
        match find_char(s.drop_first(), c) {
            Some(i) => Some(i + 1),
            None => None,
        }
    }
}

/// The pieces of `s` between occurrences of `sep` (what `str::split` yields).
pub open spec fn split_spec(s: Seq<char>, sep: char) -> Seq<Seq<char>>
    decreases s.len(),
{
    match find_char(s, sep) {
        Some(i) => {
            if 0 <= i < s.len() {
                seq![s.take(i)] + split_spec(s.skip(i + 1), sep)
            } else {
                seq![s]
            }
        },
        None => seq![s],
    }
}

/// `s` with every `from` replaced by `to`.
pub open spec fn replace_char_spec(s: Seq<char>, from: char, to: char) -> Seq<char> {
    s.map_values(|c: char| if c == from { to } else { c })
}

/// `s` with every `\r\n` replaced by `\n`.
pub open spec fn crlf_to_lf(s: Seq<char>) -> Seq<char>
    decreases s.len(),
{
    if s.len() == 0 {
        s
    } else if s.len() >= 2 && s[0] == '\r' && s[1] == '\n' {
        seq!['\n'] + crlf_to_lf(s.skip(2))
    } else {
        seq![s[0]] + crlf_to_lf(s.drop_first())
    }
}

/// `s` with every leading occurrence of `p` removed (what
/// `str::trim_start_matches` does for a non-empty pattern).
pub open spec fn trim_start_matches_spec(s: Seq<char>, p: Seq<char>) -> Seq<char>
    decreases s.len(),
{
    if p.len() > 0 && is_prefix_of(p, s) {
        trim_start_matches_spec(s.skip(p.len() as int), p)
    } else {
        s
    }
}

pub open spec fn digit_char(d: nat) -> char {
    if d == 0 {
        '0'
    } else if d == 1 {
        '1'
    } else if d == 2 {
        '2'
    } else if d == 3 {
        '3'
    } else if d == 4 {
        '4'
    } else if d == 5 {
        '5'
    } else if d == 6 {
        '6'
    } else if d == 7 {
        '7'
    } else if d == 8 {
        '8'
    } else {
        '9'
    }
}

/// Decimal digits of `n`, without leading zeros.
pub open spec fn decimal(n: nat) -> Seq<char>
    decreases n,
{
    if n < 10 {
        seq![digit_char(n)]
    } else {
        decimal(n / 10).push(digit_char(n % 10))
    }
}

// ---------------------------------------------------------------------------
// Executable versions.
// ---------------------------------------------------------------------------

/// `str::starts_with` for a string pattern.
pub fn starts_with(s: &str, p: &str) -> (r: bool)
    ensures
        r == is_prefix_of(p@, s@),
{
    let sc = source_chars(s);
    let pc = source_chars(p);
    if pc.len() > sc.len() {
        return false;
    }
    let mut k: usize = 0;
    while k < pc.len()
        invariant
            sc@ == s@,
            pc@ == p@,
            pc@.len() <= sc@.len(),
            k <= pc@.len(),
            forall|j: int| 0 <= j < k ==> sc@[j] == pc@[j],
        decreases pc@.len() - k,
    {
        if sc[k] != pc[k] {
            assert(s@.take(p@.len() as int)[k as int] != p@[k as int]);
            return false;
        }
        k = k + 1;
    }
    assert(s@.take(p@.len() as int) =~= p@);
    true
}

/// `str::ends_with` for a string pattern.
pub fn ends_with(s: &str, p: &str) -> (r: bool)
    ensures
        r == is_suffix_of(p@, s@),
{
    let sc = source_chars(s);
    let pc = source_chars(p);
    if pc.len() > sc.len() {
        return false;
    }
    let off = sc.len() - pc.len();
    let n = sc.len();
    let mut k: usize = 0;
    while k < pc.len()
        invariant
            n == sc@.len(),
            sc@ == s@,
            pc@ == p@,
            off + pc@.len() == sc@.len(),
            k <= pc@.len(),
            forall|j: int| 0 <= j < k ==> sc@[off + j] == pc@[j],
        decreases pc@.len() - k,
    {
        if sc[off + k] != pc[k] {
            assert(s@.skip(off as int)[k as int] != p@[k as int]);
            return false;
        }
        k = k + 1;
    }
    assert(s@.skip(off as int) =~= p@);
    true
}

proof fn lemma_trim_start_skip(s: Seq<char>, k: int)
    requires
        0 <= k <= s.len(),
        forall|j: int| 0 <= j < k ==> is_white_space(#[trigger] s[j]),
    ensures
        trim_start_spec(s) == trim_start_spec(s.skip(k)),
    decreases k,
{
    if k > 0 {
        assert(s.skip(k - 1).drop_first() =~= s.skip(k));
        assert(s.skip(k - 1)[0] == s[k - 1]);
        lemma_trim_start_skip(s, k - 1);
    } else {
        assert(s.skip(0) =~= s);
    }
}

proof fn lemma_trim_end_take(s: Seq<char>, k: int)
    requires
        0 <= k <= s.len(),
        forall|j: int| k <= j < s.len() ==> is_white_space(#[trigger] s[j]),
    ensures
        trim_end_spec(s) == trim_end_spec(s.take(k)),
    decreases s.len() - k,
{
    if k < s.len() {
        assert(s.take(k + 1).drop_last() =~= s.take(k));
        assert(s.take(k + 1).last() == s[k]);
        lemma_trim_end_take(s, k + 1);
    } else {
        assert(s.take(k) =~= s);
    }
}

/// Bounds `a..b` of the trimmed part of `cs[from..to]`.
pub fn trim_bounds(cs: &Vec<char>, from: usize, to: usize) -> (r: (usize, usize))
    requires
        from <= to <= cs@.len(),
    ensures
        from <= r.0 <= r.1 <= to,
        cs@.subrange(r.0 as int, r.1 as int) == trim_spec(cs@.subrange(from as int, to as int)),
{
    let ghost s = cs@.subrange(from as int, to as int);
    let mut a = from;
    while a < to && char_is_whitespace(cs[a])
        invariant
            from <= a <= to <= cs@.len(),
            forall|j: int| from <= j < a ==> is_white_space(#[trigger] cs@[j]),
        decreases to - a,
    {
        a = a + 1;
    }
    proof {
        assert forall|j: int| 0 <= j < a - from implies is_white_space(#[trigger] s[j]) by {
            assert(s[j] == cs@[from + j]);
        }
        lemma_trim_start_skip(s, a - from);
        assert(s.skip(a - from) =~= cs@.subrange(a as int, to as int));
        if a < to {
            assert(cs@.subrange(a as int, to as int)[0] == cs@[a as int]);
        }
        assert(trim_start_spec(cs@.subrange(a as int, to as int)) == cs@.subrange(a as int, to as int));
    }
    let mut b = to;
    while b > a && char_is_whitespace(cs[b - 1])
        invariant
            from <= a <= b <= to <= cs@.len(),
            forall|j: int| b <= j < to ==> is_white_space(#[trigger] cs@[j]),
        decreases b - a,
    {
        b = b - 1;
    }
    proof {
        let t = cs@.subrange(a as int, to as int);
        assert forall|j: int| b - a <= j < t.len() implies is_white_space(#[trigger] t[j]) by {
            assert(t[j] == cs@[a + j]);
        }
        lemma_trim_end_take(t, b - a);
        assert(t.take(b - a) =~= cs@.subrange(a as int, b as int));
        if b > a {
            assert(cs@.subrange(a as int, b as int).last() == cs@[b - 1]);
        }
        assert(trim_end_spec(cs@.subrange(a as int, b as int)) == cs@.subrange(a as int, b as int));
    }
    (a, b)
}

/// `str::trim`.
pub fn trim(s: &str) -> (r: String)
    ensures
        r@ == trim_spec(s@),
{
    let cs = source_chars(s);
    assert(cs@.subrange(0, cs@.len() as int) =~= s@);
    let (a, b) = trim_bounds(&cs, 0, cs.len());
    string_from_chars(&cs, a, b)
}

/// `str::replace` of one char by another.
pub fn replace_char(s: &str, from: char, to: char) -> (r: String)
    ensures
        r@ == replace_char_spec(s@, from, to),
{
    let cs = source_chars(s);
    let mut out = String::new();
    let mut k: usize = 0;
    while k < cs.len()
        invariant
            cs@ == s@,
            k <= cs@.len(),
            out@ == replace_char_spec(s@.take(k as int), from, to),
        decreases cs@.len() - k,
    {
        let c = cs[k];
        string_push(
            &mut out,
            if c == from {
                to
            } else {
                c
            },
        );
        assert(replace_char_spec(s@.take(k + 1), from, to) =~= replace_char_spec(
            s@.take(k as int),
            from,
            to,
        ).push(
            if c == from {
                to
            } else {
                c
            },
        ));
        k = k + 1;
    }
    assert(s@.take(cs@.len() as int) =~= s@);
    out
}

/// Index of the first occurrence of `c` in `cs[from..]`, relative to `from`.
pub fn find_char_from(cs: &Vec<char>, from: usize, c: char) -> (r: Option<usize>)
    requires
        from <= cs@.len(),
    ensures
        match r {
            Some(i) => find_char(cs@.skip(from as int), c) == Some(i as int),
            None => find_char(cs@.skip(from as int), c) is None,
        },
{
    let mut k = from;
    while k < cs.len() && cs[k] != c
        invariant
            from <= k <= cs@.len(),
            find_char(cs@.skip(from as int), c) == match find_char(cs@.skip(k as int), c) {
                Some(i) => Some(i + (k - from)),
                None => None::<int>,
            },
        decreases cs@.len() - k,
    {
        assert(cs@.skip(k as int).drop_first() =~= cs@.skip(k + 1));
        k = k + 1;
    }
    if k < cs.len() {
        Some(k - from)
    } else {
        assert(cs@.skip(k as int).len() == 0);
        None
    }
}

pub proof fn lemma_find_char(s: Seq<char>, c: char)
    ensures
        find_char(s, c) matches Some(i) ==> 0 <= i < s.len() && s[i] == c && forall|j: int|
            0 <= j < i ==> #[trigger] s[j] != c,
        find_char(s, c) is None ==> forall|j: int| 0 <= j < s.len() ==> #[trigger] s[j] != c,
    decreases s.len(),
{
    if s.len() > 0 {
        lemma_find_char(s.drop_first(), c);
        assert forall|j: int| 1 <= j < s.len() implies s[j] == s.drop_first()[j - 1] by {}
    }
}

/// `str::split` on a char.
pub fn split_char(s: &str, sep: char) -> (parts: Vec<String>)
    ensures
        parts@.map_values(|p: String| p@) == split_spec(s@, sep),
{
    let cs = source_chars(s);
    let mut parts: Vec<String> = Vec::new();
    let mut start: usize = 0;
    let ghost goal = split_spec(s@, sep);
    let n = cs.len();
    assert(cs@.skip(0) =~= s@);
    loop
        invariant
            n == cs@.len(),
            cs@ == s@,
            goal == split_spec(s@, sep),
            start <= cs@.len(),
            parts@.map_values(|p: String| p@) + split_spec(cs@.skip(start as int), sep) == goal,
        decreases cs@.len() - start,
    {
        let ghost rest = cs@.skip(start as int);
        proof {
            lemma_find_char(rest, sep);
        }
        match find_char_from(&cs, start, sep) {
            Some(i) => {
                let piece = string_from_chars(&cs, start, start + i);
                proof {
                    assert(rest.take(i as int) =~= piece@);
                    assert(rest.skip(i + 1) =~= cs@.skip(start + i + 1));
                    assert(parts@.push(piece).map_values(|p: String| p@) =~= parts@.map_values(
                        |p: String| p@,
                    ).push(piece@));
                }
                parts.push(piece);
                start = start + i + 1;
            },
            None => {
                let piece = string_from_chars(&cs, start, cs.len());
                proof {
                    assert(rest =~= piece@);
                    assert(split_spec(rest, sep) == seq![rest]);
                    assert(parts@.push(piece).map_values(|p: String| p@) =~= parts@.map_values(
                        |p: String| p@,
                    ).push(piece@));
                }
                parts.push(piece);
                return parts;
            },
        }
    }
}

/// `source.replace("\r\n", "\n")`.
pub fn replace_crlf(s: &str) -> (r: String)
    ensures
        r@ == crlf_to_lf(s@),
{
    let cs = source_chars(s);
    let mut out = String::new();
    let mut k: usize = 0;
    let ghost goal = crlf_to_lf(s@);
    assert(s@.skip(0) =~= s@);
    while k < cs.len()
        invariant
            cs@ == s@,
            k <= cs@.len(),
            out@ + crlf_to_lf(s@.skip(k as int)) == goal,
        decreases cs@.len() - k,
    {
        let ghost rest = s@.skip(k as int);
        if k + 1 < cs.len() && cs[k] == '\r' && cs[k + 1] == '\n' {
            string_push(&mut out, '\n');
            proof {
                assert(rest.skip(2) =~= s@.skip(k + 2));
                assert(out@ + crlf_to_lf(s@.skip(k + 2)) =~= (out@.drop_last() + (seq!['\n']
                    + crlf_to_lf(rest.skip(2)))));
            }
            k = k + 2;
        } else {
            string_push(&mut out, cs[k]);
            proof {
                assert(rest.drop_first() =~= s@.skip(k + 1));
                assert(out@ + crlf_to_lf(s@.skip(k + 1)) =~= (out@.drop_last() + (seq![rest[0]]
                    + crlf_to_lf(rest.drop_first()))));
            }
            k = k + 1;
        }
    }
    assert(s@.skip(cs@.len() as int) =~= Seq::<char>::empty());
    assert(out@ + Seq::<char>::empty() =~= out@);
    out
}

fn digit(d: u64) -> (c: char)
    requires
        d < 10,
    ensures
        c == digit_char(d as nat),
{
    if d == 0 {
        '0'
    } else if d == 1 {
        '1'
    } else if d == 2 {
        '2'
    } else if d == 3 {
        '3'
    } else if d == 4 {
        '4'
    } else if d == 5 {
        '5'
    } else if d == 6 {
        '6'
    } else if d == 7 {
        '7'
    } else if d == 8 {
        '8'
    } else {
        '9'
    }
}

/// Decimal rendering of an unsigned integer (what `to_string` gives).
pub fn decimal_string(n: u64) -> (s: String)
    ensures
        s@ == decimal(n as nat),
    decreases n,
{
    if n < 10 {
        let mut s = String::new();
        string_push(&mut s, digit(n));
        s
    } else {
        let mut s = decimal_string(n / 10);
        string_push(&mut s, digit(n % 10));
        s
    }
}

/// A string holding `a` followed by `b`.
pub fn concat_str(a: &str, b: &str) -> (s: String)
    ensures
        s@ == a@ + b@,
{
    let mut s = String::from_str(a);
    s.append(b);
    s
}

/// The parts joined with `sep` between neighbours (what `join` gives).
pub open spec fn join_spec(parts: Seq<Seq<char>>, sep: Seq<char>) -> Seq<char>
    decreases parts.len(),
{
    if parts.len() == 0 {
        seq![]
    } else if parts.len() == 1 {
        parts[0]
    } else {
        join_spec(parts.drop_last(), sep) + sep + parts.last()
    }
}

pub open spec fn strings_view(v: Seq<String>) -> Seq<Seq<char>> {
    v.map_values(|s: String| s@)
}

/// The strings joined with `sep` between neighbours.
pub fn join(parts: &[String], sep: &str) -> (s: String)
    ensures
        s@ == join_spec(strings_view(parts@), sep@),
{
    let mut s = String::new();
    let mut k: usize = 0;
    while k < parts.len()
        invariant
            k <= parts@.len(),
            s@ == join_spec(strings_view(parts@).take(k as int), sep@),
        decreases parts@.len() - k,
    {
        if k > 0 {
            s.append(sep);
        }
        s.append(parts[k].as_str());
        proof {
            let v = strings_view(parts@);
            assert(v.take(k + 1).drop_last() =~= v.take(k as int));
            if k == 0 {
                assert(v.take(1)[0] == parts@[0]@);
                assert(s@ =~= parts@[0]@);
            }
        }
        k = k + 1;
    }
    proof {
        assert(strings_view(parts@).take(parts@.len() as int) =~= strings_view(parts@));
    }
    s
}

/// Joining one more part: the join of the first `k + 1` parts is the join of
/// the first `k`, the separator when `k > 0`, and part `k`.
pub proof fn lemma_join_take_step(parts: Seq<Seq<char>>, sep: Seq<char>, k: int)
    requires
        0 <= k < parts.len(),
    ensures
        join_spec(parts.take(k + 1), sep) == join_spec(parts.take(k), sep) + (if k > 0 {
            sep
        } else {
            Seq::<char>::empty()
        }) + parts[k],
{
    assert(parts.take(k + 1).drop_last() =~= parts.take(k));
    if k == 0 {
        assert(join_spec(parts.take(0), sep) =~= Seq::<char>::empty());
        assert(join_spec(parts.take(1), sep) == parts[0]);
        assert(Seq::<char>::empty() + Seq::<char>::empty() + parts[0] =~= parts[0]);
    }
}

} // verus!
