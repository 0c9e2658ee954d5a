//! Character-level string utilities: decimal rendering, substring search,
//! pattern replacement and separator splitting, each verified against a
//! sequence-level specification.

use vstd::prelude::*;
use vstd::string::StrSliceExecFns;
use vstd::string::StringExecFns;

verus! {

/// Decimal digits of `n`, most significant first.
pub open spec fn spec_digits(n: nat) -> Seq<char>
    decreases n,
{
    if n < 10 {
        seq![((48 + n) as u8) as char]
    } else {
        spec_digits(n / 10).push(((48 + (n % 10)) as u8) as char)
    }
}

/// Decimal rendering of a possibly negative number.
pub open spec fn spec_int_str(n: int) -> Seq<char> {
    if n < 0 {
        seq!['-'] + spec_digits((-n) as nat)
    } else {
        spec_digits(n as nat)
    }
}

/// `pat` occurs in `s` starting at position `i`.
pub open spec fn match_at(s: Seq<char>, pat: Seq<char>, i: int) -> bool {
    &&& 0 <= i
    &&& i + pat.len() <= s.len()
    &&& s.subrange(i, i + pat.len()) == pat
}

/// The tail of `spec_replace` from position `i` on: every occurrence of
/// `pat` at or after `i` replaced by `repl`, scanning left to right.
pub open spec fn spec_replace_from(s: Seq<char>, pat: Seq<char>, repl: Seq<char>, i: int) -> Seq<
    char,
>
    decreases s.len() - i,
{
    if pat.len() == 0 || i < 0 || i >= s.len() {
        s.skip(i)
    } else if match_at(s, pat, i) {
        repl + spec_replace_from(s, pat, repl, i + pat.len())
    } else {
        seq![s[i]] + spec_replace_from(s, pat, repl, i + 1)
    }
}

/// `s` with every non-overlapping occurrence of `pat` replaced by `repl`,
/// scanning left to right.
pub open spec fn spec_replace(s: Seq<char>, pat: Seq<char>, repl: Seq<char>) -> Seq<char> {
    spec_replace_from(s, pat, repl, 0)
}

/// The pieces of `s` from position `i` on, split at every occurrence of
/// `sep`. Always at least one (possibly empty) piece.
pub open spec fn spec_split_from(s: Seq<char>, sep: char, i: int) -> Seq<Seq<char>>
    decreases s.len() - i,
{
    if i < 0 || i >= s.len() {
        seq![Seq::empty()]
    } else if s[i] == sep {
        seq![Seq::<char>::empty()] + spec_split_from(s, sep, i + 1)
    } else {
        let rest = spec_split_from(s, sep, i + 1);
        seq![seq![s[i]] + rest[0]] + rest.skip(1)
    }
}

/// The pieces of `s` split at every occurrence of `sep`.
pub open spec fn spec_split(s: Seq<char>, sep: char) -> Seq<Seq<char>> {
    spec_split_from(s, sep, 0)
}

pub proof fn lemma_split_from_nonempty(s: Seq<char>, sep: char, i: int)
    ensures
        spec_split_from(s, sep, i).len() >= 1,
    decreases s.len() - i,
{
    if i < 0 || i >= s.len() {
    } else if s[i] == sep {
        lemma_split_from_nonempty(s, sep, i + 1);
    } else {
        lemma_split_from_nonempty(s, sep, i + 1);
    }
}

/// Relies on std's `String::push`: appends one character at the end.
#[verifier::external_body]
pub fn push_char(s: &mut String, c: char)
    ensures
        final(s)@ == old(s)@.push(c),
{
    s.push(c);
}

pub fn digit_char(d: u8) -> (c: char)
    requires
        d < 10,
    ensures
        c == (((48 + d) as u8) as char),
{
    (48 + d) as char
}

pub fn u64_string(n: u64) -> (r: String)
    ensures
        r@ == spec_digits(n as nat),
    decreases n,
{
    if n < 10 {
        let mut s = String::new();
        push_char(&mut s, digit_char(n as u8));
        assert(s@ =~= spec_digits(n as nat));
        s
    } else {
        let mut s = u64_string(n / 10);
        push_char(&mut s, digit_char((n % 10) as u8));
        s
    }
}

pub fn usize_string(n: usize) -> (r: String)
    ensures
        r@ == spec_digits(n as nat),
{
    u64_string(n as u64)
}

pub fn i32_string(n: i32) -> (r: String)
    ensures
        r@ == spec_int_str(n as int),
{
    if n < 0 {
        let mag: u64 = (-(n as i64)) as u64;
        let mut s = String::new();
        push_char(&mut s, '-');
        let digits = u64_string(mag);
        let r = s.concat(digits.as_str());
        assert(r@ =~= spec_int_str(n as int));
        r
    } else {
        u64_string(n as u64)
    }
}

/// Character-for-character equality of two string slices.
pub fn eq_str(a: &str, b: &str) -> (r: bool)
    ensures
        r == (a@ == b@),
{
    let alen = a.unicode_len();
    let blen = b.unicode_len();
    if alen != blen {
        assert(a@ != b@) by {
            assert(a@.len() != b@.len());
        }
        return false;
    }
    let mut i: usize = 0;
    while i < alen
        invariant
            i <= alen,
            alen == a@.len(),
            alen == b@.len(),
            forall|k: int| 0 <= k < i ==> a@[k] == b@[k],
        decreases alen - i,
    {
        if a.get_char(i) != b.get_char(i) {
            return false;
        }
        i += 1;
    }
    proof {
        assert(a@ =~= b@);
    }
    true
}

/// `pat` occurs in `s` at position `i` (false when it does not fit).
pub fn occurs_at(s: &str, s_len: usize, pat: &str, pat_len: usize, i: usize) -> (r: bool)
    requires
        s_len == s@.len(),
        pat_len == pat@.len(),
        i <= s_len,
    ensures
        r == match_at(s@, pat@, i as int),
{
    if pat_len > s_len - i {
        assert(!match_at(s@, pat@, i as int));
        return false;
    }
    let mut k: usize = 0;
    while k < pat_len
        invariant
            k <= pat_len,
            i + pat_len <= s_len,
            s_len == s@.len(),
            pat_len == pat@.len(),
            forall|j: int| 0 <= j < k ==> s@[i + j] == pat@[j],
        decreases pat_len - k,
    {
        if s.get_char(i + k) != pat.get_char(k) {
            assert(!match_at(s@, pat@, i as int)) by {
                assert(s@.subrange(i as int, i + pat@.len())[k as int] == s@[i + k]);
            }
            return false;
        }
        k += 1;
    }
    proof {
        assert(s@.subrange(i as int, i + pat@.len()) =~= pat@);
    }
    true
}

/// `s` with every occurrence of `pat` replaced by `repl`.
pub fn replace_str(s: &str, pat: &str, repl: &str) -> (r: String)
    requires
        pat@.len() > 0,
    ensures
        r@ == spec_replace(s@, pat@, repl@),
{
    let s_len = s.unicode_len();
    let pat_len = pat.unicode_len();
    let mut out = String::new();
    let mut i: usize = 0;
    while i < s_len
        invariant
            i <= s_len,
            s_len == s@.len(),
            pat_len == pat@.len(),
            pat_len > 0,
            out@ + spec_replace_from(s@, pat@, repl@, i as int) == spec_replace(s@, pat@, repl@),
        decreases s_len - i,
    {
        if occurs_at(s, s_len, pat, pat_len, i) {
            let ghost old_out = out@;
            out.append(repl);
            proof {
                assert(out@ + spec_replace_from(s@, pat@, repl@, i + pat_len) =~= old_out
                    + spec_replace_from(s@, pat@, repl@, i as int));
            }
            i += pat_len;
        } else {
            let ghost old_out = out@;
            push_char(&mut out, s.get_char(i));
            proof {
                assert(out@ + spec_replace_from(s@, pat@, repl@, i + 1) =~= old_out
                    + spec_replace_from(s@, pat@, repl@, i as int));
            }
            i += 1;
        }
    }
    proof {
        assert(spec_replace_from(s@, pat@, repl@, i as int) =~= Seq::<char>::empty());
        assert(out@ =~= out@ + Seq::<char>::empty());
    }
    out
}

/// The pieces of `s` split at every occurrence of `sep`.
pub fn split_str(s: &str, sep: char) -> (r: Vec<String>)
    ensures
        r.deep_view() == spec_split(s@, sep),
{
    let s_len = s.unicode_len();
    let mut done: Vec<String> = Vec::new();
    let mut cur = String::new();
    let mut i: usize = 0;
    while i < s_len
        invariant
            i <= s_len,
            s_len == s@.len(),
            spec_split(s@, sep) == done.deep_view() + shift_first(
                cur@,
                spec_split_from(s@, sep, i as int),
            ),
        decreases s_len - i,
    {
        let c = s.get_char(i);
        proof {
            lemma_split_from_nonempty(s@, sep, i + 1);
        }
        if c == sep {
            let ghost old_done = done.deep_view();
            let ghost old_cur = cur@;
            done.push(cur);
            cur = String::new();
            proof {
                let rest = spec_split_from(s@, sep, i + 1);
                assert(done.deep_view() =~~= old_done.push(old_cur));
                assert(shift_first(old_cur, spec_split_from(s@, sep, i as int)) =~~= seq![old_cur]
                    + rest);
                assert(shift_first(cur@, rest) =~~= rest);
                assert(done.deep_view() + shift_first(cur@, rest) =~~= old_done + shift_first(
                    old_cur,
                    spec_split_from(s@, sep, i as int),
                ));
            }
        } else {
            let ghost old_cur = cur@;
            push_char(&mut cur, c);
            proof {
                let rest = spec_split_from(s@, sep, i + 1);
                assert(shift_first(old_cur, spec_split_from(s@, sep, i as int)) =~~= shift_first(
                    cur@,
                    rest,
                ));
            }
        }
        i += 1;
    }
    proof {
        assert(shift_first(cur@, spec_split_from(s@, sep, i as int)) =~~= seq![cur@]);
    }
    let ghost old_done = done.deep_view();
    done.push(cur);
    assert(done.deep_view() =~= old_done.push(cur@));
    done
}

/// `pieces` with its first element prefixed by `front`.
pub open spec fn shift_first(front: Seq<char>, pieces: Seq<Seq<char>>) -> Seq<Seq<char>> {
    seq![front + pieces[0]] + pieces.skip(1)
}

/// A string slice contains an occurrence of `pat`.
pub open spec fn spec_contains(s: Seq<char>, pat: Seq<char>) -> bool {
    exists|i: int| match_at(s, pat, i)
}

pub fn contains_str(s: &str, pat: &str) -> (r: bool)
    ensures
        r == spec_contains(s@, pat@),
{
    let s_len = s.unicode_len();
    let pat_len = pat.unicode_len();
    if pat_len > s_len {
        assert(!spec_contains(s@, pat@));
        return false;
    }
    if pat_len == 0 {
        assert(match_at(s@, pat@, 0)) by {
            assert(s@.subrange(0, 0) =~= pat@);
        }
        return true;
    }
    let limit = s_len - pat_len;
    let mut i: usize = 0;
    while i <= limit
        invariant
            i <= limit + 1,
            limit == s_len - pat_len,
            pat_len >= 1,
            pat_len <= s_len,
            s_len == s@.len(),
            pat_len == pat@.len(),
            forall|k: int| 0 <= k < i ==> !match_at(s@, pat@, k),
        decreases limit + 1 - i,
    {
        if occurs_at(s, s_len, pat, pat_len, i) {
            return true;
        }
        i += 1;
    }
    assert(forall|k: int| match_at(s@, pat@, k) ==> 0 <= k < i);
    false
}

/// Membership of a string in a list of strings.
pub fn list_contains(v: &Vec<String>, s: &str) -> (r: bool)
    ensures
        r == v.deep_view().contains(s@),
{
    let mut i: usize = 0;
    while i < v.len()
        invariant
            i <= v.len(),
            forall|k: int| 0 <= k < i ==> v.deep_view()[k] != s@,
        decreases v.len() - i,
    {
        if eq_str(v[i].as_str(), s) {
            assert(v.deep_view()[i as int] == s@);
            return true;
        }
        i += 1;
    }
    false
}

} // verus!
