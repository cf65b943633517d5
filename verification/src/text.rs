//! Character-level utilities behind the response parsers: separator
//! splitting, substring search, and decimal-number reading, each verified
//! against a sequence-level model.

use vstd::prelude::*;
use vstd::string::StrSliceExecFns;
use vstd::string::StringExecFns;

verus! {

/// ASCII whitespace: the separator set used when a scan segment is cut
/// into tokens.
pub open spec fn is_space(c: char) -> bool {
    c == ' ' || c == '\t' || c == '\n' || c == '\r' || c == '\u{b}' || c == '\u{c}'
}

/// The separator predicate that matches exactly the character `d`.
pub open spec fn eq_char(d: char) -> spec_fn(char) -> bool {
    |c: char| c == d
}

/// The separator predicate that matches ASCII whitespace.
pub open spec fn space_pred() -> spec_fn(char) -> bool {
    |c: char| is_space(c)
}

/// Keeps the non-empty pieces of a split.
pub open spec fn nonempty_pred() -> spec_fn(Seq<char>) -> bool {
    |t: Seq<char>| t.len() > 0
}

/// Splitting a character sequence at every separator: the pieces between
/// separators, in order, empty pieces kept.  Splitting the empty sequence
/// gives one empty piece, as `str::split` does.
pub open spec fn split_when(s: Seq<char>, p: spec_fn(char) -> bool) -> Seq<Seq<char>>
    decreases s.len(),
{
    if s.len() == 0 {
        seq![Seq::<char>::empty()]
    } else if p(s[0]) {
        seq![Seq::<char>::empty()] + split_when(s.skip(1), p)
    } else {
        let rest = split_when(s.skip(1), p);
        seq![seq![s[0]] + rest[0]] + rest.skip(1)
    }
}

pub proof fn lemma_split_when_len(s: Seq<char>, p: spec_fn(char) -> bool)
    ensures
        split_when(s, p).len() >= 1,
    decreases s.len(),
{
    if s.len() > 0 {
        lemma_split_when_len(s.skip(1), p);
    }
}

/// At the first separator, a split is the piece before it followed by the
/// split of what comes after it.
pub proof fn lemma_split_when_at_sep(s: Seq<char>, p: spec_fn(char) -> bool, i: int)
    requires
        0 <= i < s.len(),
        p(s[i]),
        forall|k: int| 0 <= k < i ==> !p(s[k]),
    ensures
        split_when(s, p) == seq![s.take(i)] + split_when(s.skip(i + 1), p),
    decreases i,
{
    lemma_split_when_len(s.skip(1), p);
    if i == 0 {
        assert(s.take(0) =~= Seq::<char>::empty());
        assert(split_when(s, p) =~~= seq![s.take(0)] + split_when(s.skip(1), p));
    } else {
        let s1 = s.skip(1);
        assert(s1[i - 1] == s[i]);
        assert(forall|k: int| 0 <= k < i - 1 ==> s1[k] == s[k + 1] && !p(s1[k]));
        lemma_split_when_at_sep(s1, p, i - 1);
        let rest = split_when(s1, p);
        assert(rest == seq![s1.take(i - 1)] + split_when(s1.skip(i), p));
        assert(rest[0] == s1.take(i - 1));
        assert(seq![s[0]] + s1.take(i - 1) =~= s.take(i));
        assert(rest.skip(1) =~~= split_when(s1.skip(i), p));
        assert(s1.skip(i) =~= s.skip(i + 1));
        assert(split_when(s, p) =~~= seq![s.take(i)] + split_when(s.skip(i + 1), p));
    }
}

/// A sequence without separators splits into the single piece that is the
/// whole sequence.
pub proof fn lemma_split_when_no_sep(s: Seq<char>, p: spec_fn(char) -> bool)
    requires
        forall|k: int| 0 <= k < s.len() ==> !p(s[k]),
    ensures
        split_when(s, p) == seq![s],
    decreases s.len(),
{
    if s.len() == 0 {
        assert(split_when(s, p) =~~= seq![s]);
    } else {
        let s1 = s.skip(1);
        assert(forall|k: int| 0 <= k < s1.len() ==> s1[k] == s[k + 1] && !p(s1[k]));
        lemma_split_when_no_sep(s1, p);
        assert(seq![s[0]] + s1 =~= s);
        assert(split_when(s, p) =~~= seq![s]);
    }
}

/// The characters of a string as a vector, for random access while
/// scanning.
pub fn chars_of(s: &str) -> (v: Vec<char>)
    ensures
        v@ == s@,
{
    let n: usize = s.unicode_len();
    let mut v: Vec<char> = Vec::new();
    let mut i: usize = 0;
    while i < n
        invariant
            n == s@.len(),
            i <= n,
            v@ == s@.take(i as int),
        decreases n - i,
    {
        let c = s.get_char(i);
        v.push(c);
        proof {
            assert(s@.take(i + 1 as int) =~= s@.take(i as int).push(s@[i as int]));
        }
        i = i + 1;
    }
    proof {
        assert(s@.take(n as int) =~= s@);
    }
    v
}

/// Splits `s` at every occurrence of the character `d`, empty pieces kept.
pub fn split_on_char(s: &str, d: char) -> (r: Vec<String>)
    ensures
        r.deep_view() == split_when(s@, eq_char(d)),
{
    let cs = chars_of(s);
    let n: usize = cs.len();
    let mut out: Vec<String> = Vec::new();
    let mut start: usize = 0;
    let mut i: usize = 0;
    proof {
        assert(s@.skip(0) =~= s@);
        assert(out.deep_view() =~~= Seq::<Seq<char>>::empty());
        assert(out.deep_view() + split_when(s@, eq_char(d)) =~~= split_when(s@, eq_char(d)));
    }
    while i < n
        invariant
            cs@ == s@,
            n == s@.len(),
            start <= i <= n,
            forall|k: int| start <= k < i ==> s@[k] != d,
            split_when(s@, eq_char(d)) == out.deep_view() + split_when(
                s@.skip(start as int),
                eq_char(d),
            ),
        decreases n - i,
    {
        if cs[i] == d {
            let seg = s.substring_char(start, i);
            let ghost pre = out.deep_view();
            out.push(String::from_str(seg));
            proof {
                let sk = s@.skip(start as int);
                assert(sk[i - start] == s@[i as int]);
                assert(forall|k: int| 0 <= k < i - start ==> sk[k] == s@[k + start] && sk[k] != d);
                lemma_split_when_at_sep(sk, eq_char(d), i - start);
                assert(sk.take(i - start) =~= seg@);
                assert(sk.skip(i - start + 1) =~= s@.skip(i + 1 as int));
                assert(out.deep_view() =~~= pre.push(seg@));
                assert(out.deep_view() + split_when(s@.skip(i + 1 as int), eq_char(d)) =~~= pre
                    + split_when(s@.skip(start as int), eq_char(d)));
            }
            start = i + 1;
        }
        i = i + 1;
    }
    let seg = s.substring_char(start, n);
    let ghost pre = out.deep_view();
    out.push(String::from_str(seg));
    proof {
        let sk = s@.skip(start as int);
        assert(forall|k: int| 0 <= k < sk.len() ==> sk[k] == s@[k + start] && sk[k] != d);
        lemma_split_when_no_sep(sk, eq_char(d));
        assert(sk =~= seg@);
        assert(out.deep_view() =~~= pre.push(seg@));
        assert(pre.push(seg@) =~~= pre + seq![seg@]);
    }
    out
}

/// Whether `c` is ASCII whitespace.
pub fn is_space_char(c: char) -> (r: bool)
    ensures
        r == is_space(c),
{
    c == ' ' || c == '\t' || c == '\n' || c == '\r' || c == '\u{b}' || c == '\u{c}'
}

/// Splits `s` at every ASCII whitespace character, empty pieces kept.
pub fn split_on_space(s: &str) -> (r: Vec<String>)
    ensures
        r.deep_view() == split_when(s@, space_pred()),
{
    let cs = chars_of(s);
    let n: usize = cs.len();
    let mut out: Vec<String> = Vec::new();
    let mut start: usize = 0;
    let mut i: usize = 0;
    proof {
        assert(s@.skip(0) =~= s@);
        assert(out.deep_view() =~~= Seq::<Seq<char>>::empty());
        assert(out.deep_view() + split_when(s@, space_pred()) =~~= split_when(s@, space_pred()));
    }
    while i < n
        invariant
            cs@ == s@,
            n == s@.len(),
            start <= i <= n,
            forall|k: int| start <= k < i ==> !is_space(s@[k]),
            split_when(s@, space_pred()) == out.deep_view() + split_when(
                s@.skip(start as int),
                space_pred(),
            ),
        decreases n - i,
    {
        if is_space_char(cs[i]) {
            let seg = s.substring_char(start, i);
            let ghost pre = out.deep_view();
            out.push(String::from_str(seg));
            proof {
                let sk = s@.skip(start as int);
                assert(sk[i - start] == s@[i as int]);
                assert(forall|k: int|
                    0 <= k < i - start ==> sk[k] == s@[k + start] && !is_space(sk[k]));
                lemma_split_when_at_sep(sk, space_pred(), i - start);
                assert(sk.take(i - start) =~= seg@);
                assert(sk.skip(i - start + 1) =~= s@.skip(i + 1 as int));
                assert(out.deep_view() =~~= pre.push(seg@));
                assert(out.deep_view() + split_when(s@.skip(i + 1 as int), space_pred()) =~~= pre
                    + split_when(s@.skip(start as int), space_pred()));
            }
            start = i + 1;
        }
        i = i + 1;
    }
    let seg = s.substring_char(start, n);
    let ghost pre = out.deep_view();
    out.push(String::from_str(seg));
    proof {
        let sk = s@.skip(start as int);
        assert(forall|k: int| 0 <= k < sk.len() ==> sk[k] == s@[k + start] && !is_space(sk[k]));
        lemma_split_when_no_sep(sk, space_pred());
        assert(sk =~= seg@);
        assert(out.deep_view() =~~= pre.push(seg@));
        assert(pre.push(seg@) =~~= pre + seq![seg@]);
    }
    out
}

/// Keeps the non-empty strings, in order.
pub fn keep_nonempty(v: Vec<String>) -> (r: Vec<String>)
    ensures
        r.deep_view() == v.deep_view().filter(nonempty_pred()),
{
    let n: usize = v.len();
    let mut out: Vec<String> = Vec::new();
    let mut i: usize = 0;
    proof {
        assert(out.deep_view() =~~= Seq::<Seq<char>>::empty());
        assert(v.deep_view().take(0) =~= Seq::<Seq<char>>::empty());
        reveal_with_fuel(Seq::filter, 2);
    }
    while i < n
        invariant
            n == v@.len(),
            i <= n,
            out.deep_view() == v.deep_view().take(i as int).filter(nonempty_pred()),
        decreases n - i,
    {
        let ghost pre = out.deep_view();
        let ghost dv = v.deep_view();
        if !v[i].as_str().is_empty() {
            let piece = v[i].clone();
            out.push(piece);
            proof {
                assert(out.deep_view() =~~= pre.push(dv[i as int]));
            }
        }
        proof {
            reveal_with_fuel(Seq::filter, 2);
            assert(dv.take(i + 1).drop_last() =~= dv.take(i as int));
            assert(dv.take(i + 1).last() == dv[i as int]);
        }
        i = i + 1;
    }
    proof {
        assert(v.deep_view().take(n as int) =~= v.deep_view());
    }
    out
}

/// The characters of `p` appear in `s` starting at position `i`.
pub open spec fn match_at(s: Seq<char>, p: Seq<char>, i: int) -> bool {
    0 <= i && i + p.len() <= s.len() && (forall|j: int| 0 <= j < p.len() ==> s[i + j] == p[j])
}

/// The first position of `p` in `s`, if `p` occurs in `s` at all.
pub open spec fn find_pat(s: Seq<char>, p: Seq<char>) -> Option<int>
    decreases s.len(),
{
    if s.len() < p.len() {
        None
    } else if match_at(s, p, 0) {
        Some(0)
    } else {
        match find_pat(s.skip(1), p) {
            Some(j) => Some(j + 1),
            None => None,
        }
    }
}

pub proof fn lemma_match_at_shift(s: Seq<char>, p: Seq<char>, m: int, k: int)
    requires
        0 <= m <= s.len(),
        0 <= k,
    ensures
        match_at(s.skip(m), p, k) <==> match_at(s, p, m + k),
{
    if match_at(s.skip(m), p, k) {
        assert forall|j: int| 0 <= j < p.len() implies s[m + k + j] == p[j] by {
            assert(s.skip(m)[k + j] == s[m + k + j]);
        }
    }
    if match_at(s, p, m + k) {
        assert forall|j: int| 0 <= j < p.len() implies s.skip(m)[k + j] == p[j] by {
            assert(s.skip(m)[k + j] == s[m + k + j]);
        }
    }
}

/// `find_pat` gives the least position at which `p` matches, and `None`
/// exactly when no position matches.
pub proof fn lemma_find_pat(s: Seq<char>, p: Seq<char>)
    ensures
        match find_pat(s, p) {
            Some(i) => match_at(s, p, i) && (forall|k: int| 0 <= k < i ==> !match_at(s, p, k)),
            None => forall|k: int| !match_at(s, p, k),
        },
    decreases s.len(),
{
    if s.len() < p.len() {
    } else if match_at(s, p, 0) {
    } else {
        lemma_find_pat(s.skip(1), p);
        assert forall|k: int| 0 <= k implies (match_at(s.skip(1), p, k) <==> match_at(
            s,
            p,
            k + 1,
        )) by {
            lemma_match_at_shift(s, p, 1, k);
        }
        match find_pat(s.skip(1), p) {
            Some(j) => {
                assert(match_at(s, p, j + 1));
                assert forall|k: int| 0 <= k < j + 1 implies !match_at(s, p, k) by {
                    if k > 0 {
                        assert(!match_at(s.skip(1), p, k - 1));
                    }
                }
            },
            None => {
                assert forall|k: int| true implies !match_at(s, p, k) by {
                    if k > 0 {
                        assert(!match_at(s.skip(1), p, k - 1));
                    }
                }
            },
        }
    }
}

/// Whether `p` appears in `s` starting exactly at position `i`.
pub fn is_match_at(cs: &Vec<char>, pat: &Vec<char>, i: usize) -> (r: bool)
    requires
        i + pat@.len() <= cs@.len(),
    ensures
        r == match_at(cs@, pat@, i as int),
{
    let n: usize = cs.len();
    let m: usize = pat.len();
    let mut j: usize = 0;
    while j < m
        invariant
            n == cs@.len(),
            m == pat@.len(),
            i + m <= n,
            j <= m,
            forall|k: int| 0 <= k < j ==> cs@[i + k] == pat@[k],
        decreases m - j,
    {
        if cs[i + j] != pat[j] {
            return false;
        }
        j = j + 1;
    }
    true
}

/// The first position at or after `from` where `pat` appears in `cs`.
pub fn find_pat_from(cs: &Vec<char>, pat: &Vec<char>, from: usize) -> (r: Option<usize>)
    requires
        from <= cs@.len(),
        pat@.len() >= 1,
    ensures
        match r {
            Some(i) => from <= i && i + pat@.len() <= cs@.len() && find_pat(
                cs@.skip(from as int),
                pat@,
            ) == Some(i - from),
            None => find_pat(cs@.skip(from as int), pat@) is None,
        },
{
    let n: usize = cs.len();
    let m: usize = pat.len();
    proof {
        lemma_find_pat(cs@.skip(from as int), pat@);
    }
    if n - from < m {
        proof {
            assert forall|k: int| true implies !match_at(cs@.skip(from as int), pat@, k) by {}
        }
        return None;
    }
    let last: usize = n - m;
    let mut i: usize = from;
    while i <= last
        invariant
            n == cs@.len(),
            m == pat@.len(),
            m >= 1,
            from <= i,
            last == n - m,
            from <= last < n,
            forall|k: int| from <= k < i ==> !match_at(cs@, pat@, k),
        decreases last + 1 - i,
    {
        if is_match_at(cs, pat, i) {
            proof {
                lemma_find_pat(cs@.skip(from as int), pat@);
                lemma_match_at_shift(cs@, pat@, from as int, i - from);
                assert forall|k: int| 0 <= k < i - from implies !match_at(
                    cs@.skip(from as int),
                    pat@,
                    k,
                ) by {
                    lemma_match_at_shift(cs@, pat@, from as int, k);
                }
                assert(find_pat(cs@.skip(from as int), pat@) == Some(i - from));
            }
            return Some(i);
        }
        i = i + 1;
    }
    proof {
        lemma_find_pat(cs@.skip(from as int), pat@);
        assert forall|k: int| true implies !match_at(cs@.skip(from as int), pat@, k) by {
            if 0 <= k {
                lemma_match_at_shift(cs@, pat@, from as int, k);
                if from + k < cs@.len() {
                    assert(!match_at(cs@, pat@, from + k));
                }
            }
        }
    }
    None
}

/// Whether `c` is an ASCII decimal digit.
pub open spec fn is_digit(c: char) -> bool {
    48 <= c as u32 && c as u32 <= 57
}

pub open spec fn digit_val(c: char) -> int {
    c as u32 - 48
}

/// The number written by a sequence of decimal digits, most significant
/// first.
pub open spec fn digits_val(s: Seq<char>) -> int
    decreases s.len(),
{
    if s.len() == 0 {
        0
    } else {
        digits_val(s.drop_last()) * 10 + digit_val(s.last())
    }
}

pub open spec fn all_digits(s: Seq<char>) -> bool {
    forall|i: int| 0 <= i < s.len() ==> is_digit(s[i])
}

/// The digits of an unsigned number, one optional leading plus sign
/// stripped, as `u64::from_str` reads it.
pub open spec fn u64_body(s: Seq<char>) -> Seq<char> {
    if s.len() > 0 && s[0] == '+' {
        s.skip(1)
    } else {
        s
    }
}

/// Whether `s` is text that `u64::from_str` accepts: an optional plus
/// sign, then at least one digit, with the written value at most
/// `u64::MAX`.
pub open spec fn is_u64_text(s: Seq<char>) -> bool {
    let b = u64_body(s);
    b.len() > 0 && all_digits(b) && digits_val(b) <= u64::MAX
}

/// The value written by `s`, when `is_u64_text(s)` holds.
pub open spec fn u64_val(s: Seq<char>) -> int {
    digits_val(u64_body(s))
}

pub proof fn lemma_digits_val_nonneg(s: Seq<char>)
    requires
        all_digits(s),
    ensures
        digits_val(s) >= 0,
    decreases s.len(),
{
    if s.len() > 0 {
        assert(all_digits(s.drop_last()));
        lemma_digits_val_nonneg(s.drop_last());
    }
}

/// A longer run of digits never writes a smaller number.
pub proof fn lemma_digits_val_prefix(s: Seq<char>, i: int)
    requires
        all_digits(s),
        0 <= i <= s.len(),
    ensures
        digits_val(s.take(i)) <= digits_val(s),
    decreases s.len() - i,
{
    if i < s.len() {
        lemma_digits_val_prefix(s, i + 1);
        assert(s.take(i + 1).drop_last() =~= s.take(i));
        assert(s.take(i + 1).last() == s[i]);
        assert(all_digits(s.take(i)));
        lemma_digits_val_nonneg(s.take(i));
    } else {
        assert(s.take(i) =~= s);
    }
}

/// Reads `s` as an unsigned 64-bit decimal number, accepting exactly what
/// `u64::from_str` accepts.
pub fn parse_u64_text(s: &str) -> (r: Option<u64>)
    ensures
        r is Some <==> is_u64_text(s@),
        r matches Some(v) ==> v as int == u64_val(s@),
{
    let cs = chars_of(s);
    let n: usize = cs.len();
    let mut start: usize = 0;
    if n > 0 && cs[0] == '+' {
        start = 1;
    }
    let ghost b = u64_body(s@);
    proof {
        assert(b =~= s@.skip(start as int));
    }
    if start == n {
        return None;
    }
    let mut acc: u64 = 0;
    let mut i: usize = start;
    proof {
        assert(b.take(0) =~= Seq::<char>::empty());
    }
    while i < n
        invariant
            cs@ == s@,
            n == s@.len(),
            start <= i <= n,
            b == s@.skip(start as int),
            b == u64_body(s@),
            b.len() == n - start,
            forall|k: int| 0 <= k < i - start ==> is_digit(b[k]),
            acc as int == digits_val(b.take(i - start)),
        decreases n - i,
    {
        let c = cs[i];
        let cv = c as u32;
        proof {
            assert(b[i - start] == s@[i as int]);
        }
        if cv < 48 || cv > 57 {
            proof {
                assert(!is_digit(b[i - start]));
                assert(!all_digits(b));
            }
            return None;
        }
        let d = (cv - 48) as u64;
        let wide: u128 = (acc as u128) * 10 + (d as u128);
        proof {
            assert(b.take(i - start + 1).drop_last() =~= b.take(i - start));
            assert(b.take(i - start + 1).last() == b[i - start]);
            assert(wide as int == digits_val(b.take(i - start + 1)));
        }
        if wide > u64::MAX as u128 {
            proof {
                if all_digits(b) {
                    lemma_digits_val_prefix(b, i - start + 1);
                }
            }
            return None;
        }
        acc = wide as u64;
        i = i + 1;
    }
    proof {
        assert(b.take(n - start) =~= b);
    }
    Some(acc)
}

/// Every trailing `:` removed, as `str::trim_end_matches(':')` does.
pub open spec fn trim_colons(t: Seq<char>) -> Seq<char>
    decreases t.len(),
{
    if t.len() > 0 && t.last() == ':' {
        trim_colons(t.drop_last())
    } else {
        t
    }
}

/// Removes every trailing `:` from `t`.
pub fn trim_trailing_colons(t: &str) -> (r: String)
    ensures
        r@ == trim_colons(t@),
{
    let cs = chars_of(t);
    let n: usize = cs.len();
    let mut k: usize = n;
    proof {
        assert(t@.take(n as int) =~= t@);
    }
    while k > 0 && cs[k - 1] == ':'
        invariant
            cs@ == t@,
            n == t@.len(),
            k <= n,
            trim_colons(t@) == trim_colons(t@.take(k as int)),
        decreases k,
    {
        proof {
            assert(t@.take(k as int).last() == t@[k - 1]);
            assert(t@.take(k as int).drop_last() =~= t@.take(k - 1));
        }
        k = k - 1;
    }
    let r = t.substring_char(0, k);
    proof {
        if k > 0 {
            assert(t@.take(k as int).last() == t@[k - 1]);
        }
        assert(trim_colons(t@.take(k as int)) == t@.take(k as int));
        assert(t@.subrange(0, k as int) =~= t@.take(k as int));
    }
    String::from_str(r)
}

} // verus!

