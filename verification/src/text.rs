//! Character-sequence utilities: the verified string operations the
//! extractors and the path normalizer are built on.
//!
//! Executable code works on `Vec<char>`; a `String` is converted at the
//! boundary. Every operation has a specification over `Seq<char>` that
//! mirrors the corresponding `str` method of std.

use vstd::prelude::*;
use vstd::std_specs::iter::IteratorSpec;

verus! {

// === character classes ===

/// The Unicode `White_Space` characters, as `char::is_whitespace` accepts
/// them (and hence as `str::trim` and `str::split_whitespace` use them).
pub open spec fn is_space_char(c: char) -> bool {
    let n = c as u32;
    n == 0x20 || n == 0x09 || n == 0x0A || n == 0x0B || n == 0x0C || n == 0x0D || n == 0x85
        || n == 0xA0 || n == 0x1680 || (0x2000 <= n && n <= 0x200A) || n == 0x2028 || n == 0x2029
        || n == 0x202F || n == 0x205F || n == 0x3000
}

pub fn is_space(c: char) -> (r: bool)
    ensures
        r == is_space_char(c),
{
    let n = c as u32;
    n == 0x20 || n == 0x09 || n == 0x0A || n == 0x0B || n == 0x0C || n == 0x0D || n == 0x85
        || n == 0xA0 || n == 0x1680 || (0x2000 <= n && n <= 0x200A) || n == 0x2028 || n == 0x2029
        || n == 0x202F || n == 0x205F || n == 0x3000
}

// === boundary conversions between String and Vec<char> ===

/// The characters of the string, in order, collected through the
/// specified `str::chars` iterator.
pub fn chars_of(s: &str) -> (r: Vec<char>)
    ensures
        r@ == s@,
{
    broadcast use vstd::string::axiom_spec_iter;
    broadcast use vstd::string::next_postcondition;

    let mut r: Vec<char> = Vec::new();
    let mut it = s.chars();
    loop
        invariant
            r@ + it.remaining() == s@,
            r@.len() <= s@.len(),
        decreases s@.len() - r@.len(),
    {
        match it.next() {
            Some(c) => {
                r.push(c);
                proof {
                    assert(r@ + it.remaining() =~= s@);
                }
            },
            None => {
                proof {
                    assert(r@ =~= s@);
                }
                return r;
            },
        }
    }
}

/// Relies on `String`'s `FromIterator<char>`: the collected string holds
/// exactly the iterated characters, in order.
#[verifier::external_body]
pub fn string_from_chars(v: &Vec<char>) -> (r: String)
    ensures
        r@ == v@,
{
    v.iter().copied().collect()
}

// === elementary sequence operations ===

/// The first `n` characters of `s`.
pub fn take_to(s: &Vec<char>, n: usize) -> (r: Vec<char>)
    requires
        n <= s.len(),
    ensures
        r@ == s@.take(n as int),
{
    let mut r: Vec<char> = Vec::new();
    let mut i: usize = 0;
    while i < n
        invariant
            i <= n,
            n <= s.len(),
            r@ == s@.take(i as int),
        decreases n - i,
    {
        r.push(s[i]);
        proof {
            assert(s@.take(i + 1 as int) =~= s@.take(i as int).push(s@[i as int]));
        }
        i = i + 1;
    }
    r
}

/// The characters of `s` from position `n` on.
pub fn tail_from(s: &Vec<char>, n: usize) -> (r: Vec<char>)
    requires
        n <= s.len(),
    ensures
        r@ == s@.skip(n as int),
{
    let mut r: Vec<char> = Vec::new();
    let mut i: usize = n;
    while i < s.len()
        invariant
            n <= i <= s.len(),
            r@ == s@.subrange(n as int, i as int),
        decreases s.len() - i,
    {
        r.push(s[i]);
        proof {
            assert(s@.subrange(n as int, i + 1 as int) =~= s@.subrange(n as int, i as int).push(
                s@[i as int],
            ));
        }
        i = i + 1;
    }
    proof {
        assert(s@.subrange(n as int, s@.len() as int) =~= s@.skip(n as int));
    }
    r
}

/// Appends all of `src` to `dst`.
pub fn append_all(dst: &mut Vec<char>, src: &Vec<char>)
    ensures
        final (dst)@ == old(dst)@ + src@,
{
    let mut i: usize = 0;
    while i < src.len()
        invariant
            i <= src.len(),
            dst@ == old(dst)@ + src@.take(i as int),
        decreases src.len() - i,
    {
        dst.push(src[i]);
        proof {
            assert(old(dst)@ + src@.take(i + 1 as int) =~= (old(dst)@ + src@.take(i as int)).push(
                src@[i as int],
            ));
        }
        i = i + 1;
    }
    proof {
        assert(src@.take(src@.len() as int) =~= src@);
    }
}

// === prefix, suffix, search ===

pub open spec fn spec_starts_with(s: Seq<char>, p: Seq<char>) -> bool {
    p.len() <= s.len() && s.take(p.len() as int) == p
}

pub open spec fn spec_ends_with(s: Seq<char>, p: Seq<char>) -> bool {
    p.len() <= s.len() && s.skip(s.len() - p.len()) == p
}

pub fn starts_with_seq(s: &Vec<char>, p: &Vec<char>) -> (r: bool)
    ensures
        r == spec_starts_with(s@, p@),
{
    if p.len() > s.len() {
        return false;
    }
    let mut i: usize = 0;
    while i < p.len()
        invariant
            i <= p.len(),
            p.len() <= s.len(),
            forall|j: int| 0 <= j < i ==> s@[j] == p@[j],
        decreases p.len() - i,
    {
        if s[i] != p[i] {
            proof {
                assert(s@.take(p@.len() as int)[i as int] == s@[i as int]);
            }
            return false;
        }
        i = i + 1;
    }
    proof {
        assert(s@.take(p@.len() as int) =~= p@);
    }
    true
}

pub fn ends_with_seq(s: &Vec<char>, p: &Vec<char>) -> (r: bool)
    ensures
        r == spec_ends_with(s@, p@),
{
    if p.len() > s.len() {
        return false;
    }
    let t = tail_from(s, s.len() - p.len());
    let r = starts_with_seq(&t, p);
    proof {
        assert(t@.take(p@.len() as int) =~= t@);
    }
    r
}

/// Index of the first occurrence of `p` in `s`, as `str::find` with a
/// string pattern gives it.
pub open spec fn spec_find(s: Seq<char>, p: Seq<char>) -> Option<int>
    decreases s.len(),
{
    if spec_starts_with(s, p) {
        Some(0int)
    } else if s.len() == 0 {
        None
    } else {
        match spec_find(s.skip(1), p) {
            None => None,
            Some(i) => Some(i + 1),
        }
    }
}

/// `spec_find` finds the leftmost occurrence, and only a real one.
pub proof fn lemma_find_props(s: Seq<char>, p: Seq<char>)
    ensures
        match spec_find(s, p) {
            Some(i) => 0 <= i && i + p.len() <= s.len() && s.subrange(i, i + p.len()) == p
                && forall|j: int| 0 <= j < i ==> #[trigger] s.subrange(j, j + p.len()) != p,
            None => forall|j: int|
                0 <= j && j + p.len() <= s.len() ==> #[trigger] s.subrange(j, j + p.len()) != p,
        },
    decreases s.len(),
{
    if spec_starts_with(s, p) {
        assert(s.subrange(0, p.len() as int) =~= s.take(p.len() as int));
    } else if s.len() == 0 {
    } else {
        lemma_find_props(s.skip(1), p);
        assert forall|j: int| 1 <= j && j + p.len() <= s.len() implies #[trigger] s.subrange(
            j,
            j + p.len(),
        ) == s.skip(1).subrange(j - 1, j - 1 + p.len()) by {
            assert(s.subrange(j, j + p.len()) =~= s.skip(1).subrange(j - 1, j - 1 + p.len()));
        }
        if p.len() <= s.len() {
            assert(s.subrange(0, p.len() as int) =~= s.take(p.len() as int));
            assert(s.subrange(0, p.len() as int) != p);
        }
        match spec_find(s.skip(1), p) {
            None => {
                assert forall|j: int| 0 <= j && j + p.len() <= s.len() implies #[trigger] s.subrange(
                    j,
                    j + p.len(),
                ) != p by {
                    if j >= 1 {
                        assert(s.skip(1).subrange(j - 1, j - 1 + p.len()) != p);
                    }
                }
            },
            Some(i) => {
                assert(s.subrange(i + 1, i + 1 + p.len()) == p);
            },
        }
    }
}

/// First occurrence of `p` in `s`, executable form.
pub fn find_seq(s: &Vec<char>, p: &Vec<char>) -> (r: Option<usize>)
    ensures
        match r {
            Some(i) => spec_find(s@, p@) == Some(i as int),
            None => spec_find(s@, p@) is None,
        },
{
    if p.len() > s.len() {
        proof {
            lemma_find_props(s@, p@);
            if let Some(k) = spec_find(s@, p@) {
                assert(false);
            }
        }
        return None;
    }
    if p.len() == 0 {
        proof {
            assert(s@.take(0) =~= p@);
        }
        return Some(0);
    }
    let mut i: usize = 0;
    while i <= s.len() - p.len()
        invariant
            1 <= p.len() <= s.len(),
            i <= s.len() - p.len() + 1,
            forall|j: int| 0 <= j < i ==> #[trigger] s@.subrange(j, j + p@.len()) != p@,
        decreases s.len() - p.len() + 1 - i,
    {
        let t = tail_from(s, i);
        if starts_with_seq(&t, p) {
            proof {
                assert(s@.subrange(i as int, i + p@.len()) =~= t@.take(p@.len() as int));
                lemma_find_props(s@, p@);
                match spec_find(s@, p@) {
                    None => {
                        assert(false);
                    },
                    Some(k) => {
                        if k < i {
                            assert(s@.subrange(k, k + p@.len()) != p@);
                        }
                        if k > i {
                            assert(s@.subrange(i as int, i + p@.len()) != p@);
                        }
                    },
                }
            }
            return Some(i);
        }
        proof {
            assert(s@.subrange(i as int, i + p@.len()) =~= t@.take(p@.len() as int));
        }
        i = i + 1;
    }
    proof {
        lemma_find_props(s@, p@);
        match spec_find(s@, p@) {
            None => {},
            Some(k) => {
                assert(s@.subrange(k, k + p@.len()) != p@);
            },
        }
    }
    None
}

/// Whether `p` occurs anywhere in `s`, as `str::contains`.
pub open spec fn spec_contains(s: Seq<char>, p: Seq<char>) -> bool {
    spec_find(s, p) is Some
}

pub fn contains_seq(s: &Vec<char>, p: &Vec<char>) -> (r: bool)
    ensures
        r == spec_contains(s@, p@),
{
    find_seq(s, p).is_some()
}

/// Whether the character sequences are equal.
pub fn eq_seq(a: &Vec<char>, b: &Vec<char>) -> (r: bool)
    ensures
        r == (a@ == b@),
{
    if a.len() != b.len() {
        return false;
    }
    let mut i: usize = 0;
    while i < a.len()
        invariant
            i <= a.len(),
            a.len() == b.len(),
            forall|j: int| 0 <= j < i ==> a@[j] == b@[j],
        decreases a.len() - i,
    {
        if a[i] != b[i] {
            return false;
        }
        i = i + 1;
    }
    proof {
        assert(a@ =~= b@);
    }
    true
}


// === replace ===

/// `str::replace` for a non-empty pattern: left-to-right, non-overlapping.
pub open spec fn spec_replace(s: Seq<char>, pat: Seq<char>, rep: Seq<char>) -> Seq<char>
    decreases s.len(),
{
    if pat.len() == 0 || s.len() < pat.len() {
        s
    } else if spec_starts_with(s, pat) {
        rep + spec_replace(s.skip(pat.len() as int), pat, rep)
    } else {
        seq![s[0]] + spec_replace(s.skip(1), pat, rep)
    }
}

pub fn replace_seq(s: &Vec<char>, pat: &Vec<char>, rep: &Vec<char>) -> (r: Vec<char>)
    requires
        pat.len() >= 1,
    ensures
        r@ == spec_replace(s@, pat@, rep@),
{
    let mut out: Vec<char> = Vec::new();
    let mut rest = tail_from(s, 0);
    proof {
        assert(s@.skip(0) =~= s@);
        assert(out@ + spec_replace(rest@, pat@, rep@) =~= spec_replace(s@, pat@, rep@));
    }
    loop
        invariant
            pat.len() >= 1,
            spec_replace(s@, pat@, rep@) == out@ + spec_replace(rest@, pat@, rep@),
        decreases rest.len(),
    {
        if rest.len() < pat.len() {
            append_all(&mut out, &rest);
            return out;
        }
        if starts_with_seq(&rest, pat) {
            append_all(&mut out, rep);
            let new_rest = tail_from(&rest, pat.len());
            proof {
                assert(out@ + rep@ + spec_replace(new_rest@, pat@, rep@) =~= out@ + (rep@
                    + spec_replace(new_rest@, pat@, rep@)));
            }
            rest = new_rest;
        } else {
            let c = rest[0];
            out.push(c);
            let new_rest = tail_from(&rest, 1);
            proof {
                assert(out@.push(c) + spec_replace(new_rest@, pat@, rep@) =~= out@ + (seq![
                    rest@[0],
                ] + spec_replace(new_rest@, pat@, rep@)));
            }
            rest = new_rest;
        }
    }
}

// === split and join ===

/// `str::split` with a non-empty string separator.
pub open spec fn spec_split(s: Seq<char>, sep: Seq<char>) -> Seq<Seq<char>>
    decreases s.len(),
{
    if sep.len() == 0 {
        seq![s]
    } else {
        match spec_find(s, sep) {
            None => seq![s],
            Some(i) => if 0 <= i && i + sep.len() <= s.len() {
                seq![s.take(i)] + spec_split(s.skip(i + sep.len()), sep)
            } else {
                seq![s]
            },
        }
    }
}

pub fn split_seq(s: &Vec<char>, sep: &Vec<char>) -> (r: Vec<Vec<char>>)
    requires
        sep.len() >= 1,
    ensures
        r.deep_view() == spec_split(s@, sep@),
{
    let mut out: Vec<Vec<char>> = Vec::new();
    let mut rest = tail_from(s, 0);
    proof {
        assert(s@.skip(0) =~= s@);
        assert(out.deep_view() + spec_split(rest@, sep@) =~~= spec_split(s@, sep@));
    }
    loop
        invariant
            sep.len() >= 1,
            spec_split(s@, sep@) == out.deep_view() + spec_split(rest@, sep@),
        decreases rest.len(),
    {
        let ghost prev = out.deep_view();
        let ghost prev_rest = rest@;
        match find_seq(&rest, sep) {
            None => {
                out.push(rest);
                proof {
                    assert(out.deep_view() =~~= prev.push(prev_rest));
                    assert(prev + seq![prev_rest] =~= prev.push(prev_rest));
                }
                return out;
            },
            Some(i) => {
                proof {
                    lemma_find_props(rest@, sep@);
                }
                let piece = take_to(&rest, i);
                out.push(piece);
                let new_rest = tail_from(&rest, i + sep.len());
                proof {
                    assert(out.deep_view() =~~= prev.push(prev_rest.take(i as int)));
                    assert(prev.push(prev_rest.take(i as int)) + spec_split(new_rest@, sep@) =~= prev
                        + (seq![prev_rest.take(i as int)] + spec_split(new_rest@, sep@)));
                }
                rest = new_rest;
            },
        }
    }
}

/// Concatenation of `parts` with `sep` between adjacent parts.
pub open spec fn spec_join(parts: Seq<Seq<char>>, sep: Seq<char>) -> Seq<char>
    decreases parts.len(),
{
    if parts.len() == 0 {
        Seq::empty()
    } else if parts.len() == 1 {
        parts[0]
    } else {
        parts[0] + sep + spec_join(parts.skip(1), sep)
    }
}

pub fn join_seq(parts: &Vec<Vec<char>>, sep: &Vec<char>) -> (r: Vec<char>)
    ensures
        r@ == spec_join(parts.deep_view(), sep@),
{
    let mut out: Vec<char> = Vec::new();
    let mut i: usize = 0;
    proof {
        assert(parts.deep_view().skip(0) =~~= parts.deep_view());
        assert(out@ + spec_join(parts.deep_view(), sep@) =~= spec_join(parts.deep_view(), sep@));
    }
    while i < parts.len()
        invariant
            i <= parts.len(),
            spec_join(parts.deep_view(), sep@) == out@ + spec_join(
                parts.deep_view().skip(i as int),
                sep@,
            ),
        decreases parts.len() - i,
    {
        let ghost dv = parts.deep_view();
        let ghost prev = out@;
        let ghost cur = parts.deep_view()[i as int];
        append_all(&mut out, &parts[i]);
        proof {
            assert(dv.skip(i as int)[0] == cur);
        }
        if i + 1 < parts.len() {
            append_all(&mut out, sep);
            proof {
                assert(dv.skip(i as int).skip(1) =~= dv.skip(i + 1));
                assert(spec_join(dv.skip(i as int), sep@) == cur + sep@ + spec_join(
                    dv.skip(i + 1),
                    sep@,
                ));
                assert(prev + (cur + sep@ + spec_join(dv.skip(i + 1), sep@)) =~= (prev + cur + sep@)
                    + spec_join(dv.skip(i + 1), sep@));
            }
        } else {
            proof {
                assert(dv.skip(i as int).len() == 1);
                assert(spec_join(dv.skip(i as int), sep@) == cur);
                assert(spec_join(dv.skip(i + 1), sep@) == Seq::<char>::empty());
                assert(prev + cur =~= (prev + cur) + Seq::<char>::empty());
            }
        }
        i = i + 1;
    }
    proof {
        assert(spec_join(parts.deep_view().skip(parts.deep_view().len() as int), sep@) == Seq::<
            char,
        >::empty());
        assert(out@ + Seq::<char>::empty() =~= out@);
    }
    out
}

// === trimming ===

pub open spec fn spec_trim_start(s: Seq<char>) -> Seq<char>
    decreases s.len(),
{
    if s.len() > 0 && is_space_char(s[0]) {
        spec_trim_start(s.skip(1))
    } else {
        s
    }
}

pub open spec fn spec_trim_end(s: Seq<char>) -> Seq<char>
    decreases s.len(),
{
    if s.len() > 0 && is_space_char(s[s.len() - 1]) {
        spec_trim_end(s.drop_last())
    } else {
        s
    }
}

/// `str::trim`: Unicode whitespace removed from both ends.
pub open spec fn spec_trim(s: Seq<char>) -> Seq<char> {
    spec_trim_end(spec_trim_start(s))
}

pub fn trim_seq(s: &Vec<char>) -> (r: Vec<char>)
    ensures
        r@ == spec_trim(s@),
{
    let mut rest = tail_from(s, 0);
    proof {
        assert(s@.skip(0) =~= s@);
    }
    loop
        invariant
            spec_trim_start(s@) == spec_trim_start(rest@),
        ensures
            spec_trim_start(s@) == rest@,
        decreases rest.len(),
    {
        if rest.len() == 0 {
            break;
        }
        if !is_space(rest[0]) {
            break;
        }
        let new_rest = tail_from(&rest, 1);
        rest = new_rest;
    }
    loop
        invariant
            spec_trim(s@) == spec_trim_end(rest@),
        ensures
            spec_trim(s@) == rest@,
        decreases rest.len(),
    {
        if rest.len() == 0 {
            break;
        }
        if !is_space(rest[rest.len() - 1]) {
            break;
        }
        let ghost prev = rest@;
        rest.pop();
        proof {
            assert(rest@ =~= prev.drop_last());
        }
    }
    rest
}

/// `str::trim_start_matches`: the prefix `pat` removed repeatedly.
pub open spec fn spec_trim_start_matches(s: Seq<char>, pat: Seq<char>) -> Seq<char>
    decreases s.len(),
{
    if pat.len() > 0 && spec_starts_with(s, pat) {
        spec_trim_start_matches(s.skip(pat.len() as int), pat)
    } else {
        s
    }
}

pub fn trim_start_matches_seq(s: &Vec<char>, pat: &Vec<char>) -> (r: Vec<char>)
    requires
        pat.len() >= 1,
    ensures
        r@ == spec_trim_start_matches(s@, pat@),
{
    let mut rest = tail_from(s, 0);
    proof {
        assert(s@.skip(0) =~= s@);
    }
    loop
        invariant
            pat.len() >= 1,
            spec_trim_start_matches(s@, pat@) == spec_trim_start_matches(rest@, pat@),
        ensures
            spec_trim_start_matches(s@, pat@) == rest@,
        decreases rest.len(),
    {
        if !starts_with_seq(&rest, pat) {
            break;
        }
        let new_rest = tail_from(&rest, pat.len());
        rest = new_rest;
    }
    rest
}

/// `str::trim_end_matches`: the suffix `pat` removed repeatedly.
pub open spec fn spec_trim_end_matches(s: Seq<char>, pat: Seq<char>) -> Seq<char>
    decreases s.len(),
{
    if pat.len() > 0 && spec_ends_with(s, pat) {
        spec_trim_end_matches(s.take(s.len() - pat.len()), pat)
    } else {
        s
    }
}

pub fn trim_end_matches_seq(s: &Vec<char>, pat: &Vec<char>) -> (r: Vec<char>)
    requires
        pat.len() >= 1,
    ensures
        r@ == spec_trim_end_matches(s@, pat@),
{
    let mut rest = tail_from(s, 0);
    proof {
        assert(s@.skip(0) =~= s@);
    }
    loop
        invariant
            pat.len() >= 1,
            spec_trim_end_matches(s@, pat@) == spec_trim_end_matches(rest@, pat@),
        ensures
            spec_trim_end_matches(s@, pat@) == rest@,
        decreases rest.len(),
    {
        if !ends_with_seq(&rest, pat) {
            break;
        }
        let new_rest = take_to(&rest, rest.len() - pat.len());
        rest = new_rest;
    }
    rest
}

/// Replacement changes nothing where the pattern never occurs.
pub proof fn lemma_replace_no_occurrence(s: Seq<char>, pat: Seq<char>, rep: Seq<char>)
    requires
        !spec_contains(s, pat),
    ensures
        spec_replace(s, pat, rep) == s,
    decreases s.len(),
{
    if pat.len() == 0 || s.len() < pat.len() {
    } else if spec_starts_with(s, pat) {
        assert(spec_find(s, pat) == Some(0int));
        assert(false);
    } else {
        match spec_find(s.skip(1), pat) {
            None => {},
            Some(i) => {
                assert(spec_find(s, pat) == Some(i + 1));
                assert(false);
            },
        }
        lemma_replace_no_occurrence(s.skip(1), pat, rep);
        assert(seq![s[0]] + s.skip(1) =~= s);
    }
}

// === lines ===

/// A trailing carriage return removed, as `str::lines` strips it from a
/// line ended by a line feed.
pub open spec fn spec_strip_cr(t: Seq<char>) -> Seq<char> {
    if t.len() > 0 && t[t.len() - 1] == '\r' {
        t.drop_last()
    } else {
        t
    }
}

/// `str::lines`: pieces split at line feeds, each piece's trailing carriage
/// return stripped, a final empty piece omitted.
pub open spec fn spec_lines(s: Seq<char>) -> Seq<Seq<char>>
    decreases s.len(),
{
    if s.len() == 0 {
        Seq::empty()
    } else {
        match spec_find(s, seq!['\n']) {
            None => seq![s],
            Some(i) => if 0 <= i && i + 1 <= s.len() {
                seq![spec_strip_cr(s.take(i))] + spec_lines(s.skip(i + 1))
            } else {
                seq![s]
            },
        }
    }
}

pub fn lines_seq(s: &Vec<char>) -> (r: Vec<Vec<char>>)
    ensures
        r.deep_view() == spec_lines(s@),
{
    let mut nl: Vec<char> = Vec::new();
    nl.push('\n');
    let mut out: Vec<Vec<char>> = Vec::new();
    let mut rest = tail_from(s, 0);
    proof {
        assert(s@.skip(0) =~= s@);
        assert(nl@ =~= seq!['\n']);
        assert(out.deep_view() + spec_lines(rest@) =~~= spec_lines(s@));
    }
    loop
        invariant
            nl@ == seq!['\n'],
            spec_lines(s@) == out.deep_view() + spec_lines(rest@),
        decreases rest.len(),
    {
        let ghost prev = out.deep_view();
        let ghost prev_rest = rest@;
        if rest.len() == 0 {
            proof {
                assert(prev + Seq::<Seq<char>>::empty() =~= prev);
            }
            return out;
        }
        match find_seq(&rest, &nl) {
            None => {
                out.push(rest);
                proof {
                    assert(out.deep_view() =~~= prev.push(prev_rest));
                    assert(prev + seq![prev_rest] =~= prev.push(prev_rest));
                }
                return out;
            },
            Some(i) => {
                proof {
                    lemma_find_props(rest@, nl@);
                }
                let mut piece = take_to(&rest, i);
                let ghost raw_piece = piece@;
                if piece.len() > 0 && piece[piece.len() - 1] == '\r' {
                    piece.pop();
                    proof {
                        assert(piece@ =~= raw_piece.drop_last());
                    }
                }
                proof {
                    assert(piece@ == spec_strip_cr(prev_rest.take(i as int)));
                }
                out.push(piece);
                let new_rest = tail_from(&rest, i + 1);
                proof {
                    assert(out.deep_view() =~~= prev.push(spec_strip_cr(prev_rest.take(i as int))));
                    assert(prev.push(spec_strip_cr(prev_rest.take(i as int))) + spec_lines(
                        new_rest@,
                    ) =~= prev + (seq![spec_strip_cr(prev_rest.take(i as int))] + spec_lines(
                        new_rest@,
                    )));
                }
                rest = new_rest;
            },
        }
    }
}

// === whitespace tokens ===

/// Index of the first whitespace character.
pub open spec fn spec_space_idx(s: Seq<char>) -> Option<int>
    decreases s.len(),
{
    if s.len() == 0 {
        None
    } else if is_space_char(s[0]) {
        Some(0int)
    } else {
        match spec_space_idx(s.skip(1)) {
            None => None,
            Some(i) => Some(i + 1),
        }
    }
}

pub proof fn lemma_space_idx_props(s: Seq<char>)
    ensures
        match spec_space_idx(s) {
            Some(i) => 0 <= i < s.len() && is_space_char(s[i]) && forall|j: int|
                0 <= j < i ==> !is_space_char(s[j]),
            None => forall|j: int| 0 <= j < s.len() ==> !is_space_char(s[j]),
        },
    decreases s.len(),
{
    if s.len() == 0 {
    } else if is_space_char(s[0]) {
    } else {
        lemma_space_idx_props(s.skip(1));
        match spec_space_idx(s.skip(1)) {
            None => {
                assert forall|j: int| 0 <= j < s.len() implies !is_space_char(s[j]) by {
                    if j >= 1 {
                        assert(!is_space_char(s.skip(1)[j - 1]));
                    }
                }
            },
            Some(i) => {
                assert(is_space_char(s.skip(1)[i]));
                assert forall|j: int| 0 <= j < i + 1 implies !is_space_char(s[j]) by {
                    if j >= 1 {
                        assert(!is_space_char(s.skip(1)[j - 1]));
                    }
                }
            },
        }
    }
}

/// `str::split_whitespace`: the maximal runs of non-whitespace characters.
pub open spec fn spec_tokens(s: Seq<char>) -> Seq<Seq<char>>
    decreases s.len(),
{
    if s.len() == 0 {
        Seq::empty()
    } else if is_space_char(s[0]) {
        spec_tokens(s.skip(1))
    } else {
        match spec_space_idx(s) {
            None => seq![s],
            Some(i) => if 0 < i && i <= s.len() {
                seq![s.take(i)] + spec_tokens(s.skip(i))
            } else {
                seq![s]
            },
        }
    }
}

pub fn tokens_seq(s: &Vec<char>) -> (r: Vec<Vec<char>>)
    ensures
        r.deep_view() == spec_tokens(s@),
{
    let mut out: Vec<Vec<char>> = Vec::new();
    let mut rest = tail_from(s, 0);
    proof {
        assert(s@.skip(0) =~= s@);
        assert(out.deep_view() + spec_tokens(rest@) =~~= spec_tokens(s@));
    }
    loop
        invariant
            spec_tokens(s@) == out.deep_view() + spec_tokens(rest@),
        decreases rest.len(),
    {
        let ghost prev = out.deep_view();
        let ghost prev_rest = rest@;
        if rest.len() == 0 {
            proof {
                assert(prev + Seq::<Seq<char>>::empty() =~= prev);
            }
            return out;
        }
        if is_space(rest[0]) {
            let new_rest = tail_from(&rest, 1);
            rest = new_rest;
        } else {
            let mut j: usize = 0;
            while j < rest.len() && !is_space(rest[j])
                invariant
                    j <= rest.len(),
                    forall|k: int| 0 <= k < j ==> !is_space_char(rest@[k]),
                decreases rest.len() - j,
            {
                j = j + 1;
            }
            proof {
                lemma_space_idx_props(rest@);
                if j < rest.len() {
                    match spec_space_idx(rest@) {
                        None => {
                            assert(false);
                        },
                        Some(k) => {
                            assert(!(k < j));
                            assert(!(k > j));
                        },
                    }
                } else {
                    match spec_space_idx(rest@) {
                        None => {},
                        Some(k) => {
                            assert(false);
                        },
                    }
                }
            }
            let piece = take_to(&rest, j);
            out.push(piece);
            if j == rest.len() {
                proof {
                    assert(prev_rest.take(j as int) =~= prev_rest);
                    assert(out.deep_view() =~~= prev.push(prev_rest));
                    assert(prev + seq![prev_rest] =~= prev.push(prev_rest));
                }
                return out;
            }
            let new_rest = tail_from(&rest, j);
            proof {
                assert(out.deep_view() =~~= prev.push(prev_rest.take(j as int)));
                assert(prev.push(prev_rest.take(j as int)) + spec_tokens(new_rest@) =~= prev + (seq![
                    prev_rest.take(j as int),
                ] + spec_tokens(new_rest@)));
            }
            rest = new_rest;
        }
    }
}

// === decimal rendering ===

pub open spec fn spec_digit_char(d: int) -> char {
    if d == 0 {
        '0'
    } else if d == 1 {
        '1'
    } else if d == 2 {
        '2'
    } else if d == 3 {
        '3'
    } else if d == 4 {
        '4'
    } else if d == 5 {
        '5'
    } else if d == 6 {
        '6'
    } else if d == 7 {
        '7'
    } else if d == 8 {
        '8'
    } else {
        '9'
    }
}

/// The decimal digits of `n`, most significant first.
pub open spec fn spec_dec_digits(n: int) -> Seq<char>
    decreases n,
{
    if n < 10 {
        seq![spec_digit_char(n)]
    } else {
        spec_dec_digits(n / 10) + seq![spec_digit_char(n % 10)]
    }
}

fn digit_char(d: usize) -> (c: char)
    requires
        d < 10,
    ensures
        c == spec_digit_char(d as int),
{
    if d == 0 {
        '0'
    } else if d == 1 {
        '1'
    } else if d == 2 {
        '2'
    } else if d == 3 {
        '3'
    } else if d == 4 {
        '4'
    } else if d == 5 {
        '5'
    } else if d == 6 {
        '6'
    } else if d == 7 {
        '7'
    } else if d == 8 {
        '8'
    } else {
        '9'
    }
}

/// Appends the decimal rendering of `n`.
pub fn push_decimal(n: usize, out: &mut Vec<char>)
    ensures
        final (out)@ == old(out)@ + spec_dec_digits(n as int),
    decreases n,
{
    if n < 10 {
        let ghost prev = out@;
        out.push(digit_char(n));
        proof {
            assert(out@ =~= prev + seq![spec_digit_char(n as int)]);
        }
    } else {
        push_decimal(n / 10, out);
        let ghost prev = out@;
        out.push(digit_char(n % 10));
        proof {
            assert(out@ =~= prev + seq![spec_digit_char(n as int % 10)]);
            assert(old(out)@ + spec_dec_digits(n as int / 10) + seq![
                spec_digit_char(n as int % 10),
            ] =~= old(out)@ + (spec_dec_digits(n as int / 10) + seq![
                spec_digit_char(n as int % 10),
            ]));
        }
    }
}

// === helpers over string vectors ===

/// Whether some element of `v` has the same characters as `s`.
pub fn contains_str(v: &Vec<String>, s: &String) -> (r: bool)
    ensures
        r == v.deep_view().contains(s@),
{
    let mut i: usize = 0;
    while i < v.len()
        invariant
            i <= v.len(),
            forall|j: int| 0 <= j < i ==> v.deep_view()[j] != s@,
        decreases v.len() - i,
    {
        if s.eq(&v[i]) {
            proof {
                assert(v.deep_view()[i as int] == s@);
            }
            return true;
        }
        i = i + 1;
    }
    proof {
        if v.deep_view().contains(s@) {
            let j = choose|j: int| 0 <= j < v.deep_view().len() && v.deep_view()[j] == s@;
            assert(v.deep_view()[j] != s@);
        }
    }
    false
}

/// Index of the first element of `v` with the same characters as `s`.
pub fn position_str(v: &Vec<String>, s: &String) -> (r: Option<usize>)
    ensures
        match r {
            Some(i) => i < v.len() && v.deep_view()[i as int] == s@ && forall|j: int|
                0 <= j < i ==> v.deep_view()[j] != s@,
            None => forall|j: int| 0 <= j < v.len() ==> v.deep_view()[j] != s@,
        },
{
    let mut i: usize = 0;
    while i < v.len()
        invariant
            i <= v.len(),
            forall|j: int| 0 <= j < i ==> v.deep_view()[j] != s@,
        decreases v.len() - i,
    {
        if s.eq(&v[i]) {
            proof {
                assert(v.deep_view()[i as int] == s@);
            }
            return Some(i);
        }
        i = i + 1;
    }
    None
}

/// A copy of `v` from position `n` on.
pub fn tail_strings(v: &Vec<String>, n: usize) -> (r: Vec<String>)
    requires
        n <= v.len(),
    ensures
        r.deep_view() == v.deep_view().skip(n as int),
{
    let mut r: Vec<String> = Vec::new();
    let mut i: usize = n;
    while i < v.len()
        invariant
            n <= i <= v.len(),
            r.deep_view() == v.deep_view().subrange(n as int, i as int),
        decreases v.len() - i,
    {
        let ghost prev = r.deep_view();
        r.push(v[i].clone());
        proof {
            assert(r.deep_view() =~= prev.push(v.deep_view()[i as int]));
            assert(v.deep_view().subrange(n as int, i + 1 as int) =~= v.deep_view().subrange(
                n as int,
                i as int,
            ).push(v.deep_view()[i as int]));
        }
        i = i + 1;
    }
    proof {
        assert(v.deep_view().subrange(n as int, v.deep_view().len() as int) =~= v.deep_view().skip(
            n as int,
        ));
    }
    r
}

} // verus!
