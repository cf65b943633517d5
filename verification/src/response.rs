//! Parsers for the daemon's replies.  A scan reply is cut into
//! NUL-separated segments and each segment classified; a VERSION reply is
//! three slash-separated fields; a STATS reply is a fixed-label document
//! read by anchored scans.  Each parser is specified against a
//! character-sequence model of the reply text.

use vstd::prelude::*;
use vstd::string::StrSliceExecFns;
use vstd::string::StringExecFns;

use crate::error::ClamError;
use crate::text::chars_of;
use crate::text::eq_char;
use crate::text::find_pat;
use crate::text::find_pat_from;
use crate::text::is_match_at;
use crate::text::match_at;
use crate::text::is_space;
use crate::text::is_u64_text;
use crate::text::keep_nonempty;
use crate::text::nonempty_pred;
use crate::text::parse_u64_text;
use crate::text::space_pred;
use crate::text::split_on_char;
use crate::text::split_on_space;
use crate::text::split_when;
use crate::text::trim_colons;
use crate::text::trim_trailing_colons;
use crate::text::u64_val;

verus! {

/// One per-path result record of a SCAN, CONTSCAN or INSTREAM reply.
#[derive(Debug, Clone, PartialEq)]
pub enum ClamScanResult {
    /// The daemon found nothing in the given file or directory.
    Clean,
    /// The daemon found a virus: the location it was found at, and the
    /// name of the signature that matched.  For a stream scan the
    /// location is the daemon's own marker for the stream.
    Found(String, String),
    /// The daemon reported an error for this path, carried verbatim.
    Error(String),
}

/// The sequence-level shape of one scan outcome.
pub enum ScanOutcomeView {
    Clean,
    Found(Seq<char>, Seq<char>),
    Error(Seq<char>),
}

impl View for ClamScanResult {
    type V = ScanOutcomeView;

    open spec fn view(&self) -> ScanOutcomeView {
        match self {
            ClamScanResult::Clean => ScanOutcomeView::Clean,
            ClamScanResult::Found(l, v) => ScanOutcomeView::Found(l@, v@),
            ClamScanResult::Error(m) => ScanOutcomeView::Error(m@),
        }
    }
}

/// The segment ends with the two characters `OK`.
pub open spec fn ends_with_ok(seg: Seq<char>) -> bool {
    seg.len() >= 2 && seg[seg.len() - 2] == 'O' && seg[seg.len() - 1] == 'K'
}

/// The five characters `FOUND` appear in `seg` starting at position `i`.
pub open spec fn found_at(seg: Seq<char>, i: int) -> bool {
    &&& 0 <= i
    &&& i + 5 <= seg.len()
    &&& seg[i] == 'F'
    &&& seg[i + 1] == 'O'
    &&& seg[i + 2] == 'U'
    &&& seg[i + 3] == 'N'
    &&& seg[i + 4] == 'D'
}

/// The segment holds the word `FOUND` somewhere.
pub open spec fn has_found(seg: Seq<char>) -> bool {
    exists|i: int| found_at(seg, i)
}

/// The token begins with the word `FOUND`.
pub open spec fn starts_with_found(t: Seq<char>) -> bool {
    found_at(t, 0)
}

/// The whitespace-delimited tokens of a segment, in order.
pub open spec fn tokens(s: Seq<char>) -> Seq<Seq<char>> {
    split_when(s, space_pred()).filter(nonempty_pred())
}

/// The signature name of an infected segment: the concatenation of the
/// tokens before the first one that begins with `FOUND`.
pub open spec fn virus_name(ts: Seq<Seq<char>>) -> Seq<char>
    decreases ts.len(),
{
    if ts.len() == 0 {
        Seq::empty()
    } else if starts_with_found(ts[0]) {
        Seq::empty()
    } else {
        ts[0] + virus_name(ts.skip(1))
    }
}

/// How one segment of a scan reply is read.  The `OK` suffix is decisive
/// and is checked before the `FOUND` test; everything else is an error
/// message carried verbatim.
pub open spec fn classify(seg: Seq<char>) -> ScanOutcomeView {
    if ends_with_ok(seg) {
        ScanOutcomeView::Clean
    } else if has_found(seg) {
        ScanOutcomeView::Found(trim_colons(tokens(seg)[0]), virus_name(tokens(seg).skip(1)))
    } else {
        ScanOutcomeView::Error(seg)
    }
}

/// The non-empty NUL-separated segments of a scan reply, in order.
pub open spec fn seg_list(text: Seq<char>) -> Seq<Seq<char>> {
    split_when(text, eq_char('\0')).filter(nonempty_pred())
}

/// The outcome sequence of a whole scan reply.
pub open spec fn scan_results(text: Seq<char>) -> Seq<ScanOutcomeView> {
    seg_list(text).map_values(|seg: Seq<char>| classify(seg))
}

/// A sequence with a non-whitespace character somewhere has at least one
/// token.
pub proof fn lemma_tokens_nonempty(s: Seq<char>, w: int)
    requires
        0 <= w < s.len(),
        !is_space(s[w]),
    ensures
        tokens(s).len() >= 1,
    decreases s.len(),
{
    let sp = split_when(s, space_pred());
    if is_space(s[0]) {
        lemma_tokens_nonempty(s.skip(1), w - 1);
        assert(sp == seq![Seq::<char>::empty()] + split_when(s.skip(1), space_pred()));
        Seq::filter_distributes_over_add(
            seq![Seq::<char>::empty()],
            split_when(s.skip(1), space_pred()),
            nonempty_pred(),
        );
        reveal_with_fuel(Seq::filter, 2);
        assert(seq![Seq::<char>::empty()].filter(nonempty_pred()) =~~= Seq::<Seq<char>>::empty());
        assert(tokens(s).len() == tokens(s.skip(1)).len());
    } else {
        let rest = split_when(s.skip(1), space_pred());
        let head = seq![s[0]] + rest[0];
        assert(sp == seq![head] + rest.skip(1));
        assert(sp[0] == head);
        assert(head.len() >= 1);
        assert(sp.contains(head));
        Seq::lemma_filter_contains_rev(sp, nonempty_pred(), head);
        assert(tokens(s).contains(head));
        let j = choose|j: int| 0 <= j < tokens(s).len() && tokens(s)[j] == head;
        assert(tokens(s).len() >= 1);
    }
}

/// Whether the word `FOUND` appears anywhere in `cs`.
fn has_found_exec(cs: &Vec<char>) -> (r: bool)
    ensures
        r == has_found(cs@),
{
    let n: usize = cs.len();
    if n < 5 {
        proof {
            assert forall|k: int| true implies !found_at(cs@, k) by {}
        }
        return false;
    }
    let last: usize = n - 5;
    let mut i: usize = 0;
    while i <= last
        invariant
            n == cs@.len(),
            n >= 5,
            last == n - 5,
            i <= last + 1,
            forall|k: int| 0 <= k < i ==> !found_at(cs@, k),
        decreases last + 1 - i,
    {
        if cs[i] == 'F' && cs[i + 1] == 'O' && cs[i + 2] == 'U' && cs[i + 3] == 'N' && cs[i + 4]
            == 'D' {
            proof {
                assert(found_at(cs@, i as int));
            }
            return true;
        }
        i = i + 1;
    }
    proof {
        assert forall|k: int| true implies !found_at(cs@, k) by {
            if 0 <= k && k + 5 <= cs@.len() {
                assert(!found_at(cs@, k));
            }
        }
    }
    false
}

/// Whether the token begins with the word `FOUND`.
fn starts_with_found_exec(t: &String) -> (r: bool)
    ensures
        r == starts_with_found(t@),
{
    let cs = chars_of(t.as_str());
    let n: usize = cs.len();
    if n < 5 {
        return false;
    }
    cs[0] == 'F' && cs[1] == 'O' && cs[2] == 'U' && cs[3] == 'N' && cs[4] == 'D'
}

/// Reads one non-empty segment of a scan reply.
fn classify_segment(seg: &str) -> (r: ClamScanResult)
    ensures
        r@ == classify(seg@),
{
    let cs = chars_of(seg);
    let n: usize = cs.len();
    if n >= 2 && cs[n - 2] == 'O' && cs[n - 1] == 'K' {
        return ClamScanResult::Clean;
    }
    if has_found_exec(&cs) {
        let toks = keep_nonempty(split_on_space(seg));
        let ghost tv = tokens(seg@);
        proof {
            let w = choose|w: int| found_at(seg@, w);
            assert(!is_space(seg@[w]));
            lemma_tokens_nonempty(seg@, w);
            assert(toks.deep_view() == tv);
            assert(toks@.len() == tv.len());
        }
        let path = trim_trailing_colons(toks[0].as_str());
        let m: usize = toks.len();
        let mut virus = String::new();
        let mut j: usize = 1;
        let mut stop = false;
        proof {
            assert(virus@ + virus_name(tv.skip(1)) =~= virus_name(tv.skip(1)));
        }
        while j < m && !stop
            invariant
                toks.deep_view() == tv,
                m == tv.len(),
                1 <= j <= m,
                stop ==> virus_name(tv.skip(1)) == virus@,
                !stop ==> virus_name(tv.skip(1)) == virus@ + virus_name(tv.skip(j as int)),
            decreases m - j, (if stop { 0int } else { 1int }),
        {
            if starts_with_found_exec(&toks[j]) {
                proof {
                    assert(tv.skip(j as int)[0] == tv[j as int]);
                    assert(virus_name(tv.skip(j as int)) =~= Seq::<char>::empty());
                }
                stop = true;
            } else {
                let ghost pre = virus@;
                virus.append(toks[j].as_str());
                proof {
                    assert(tv.skip(j as int)[0] == tv[j as int]);
                    assert(tv.skip(j as int).skip(1) =~= tv.skip(j + 1));
                    assert(virus_name(tv.skip(j as int)) == tv[j as int] + virus_name(
                        tv.skip(j + 1),
                    ));
                    assert(virus@ + virus_name(tv.skip(j + 1)) =~= pre + virus_name(
                        tv.skip(j as int),
                    ));
                }
                j = j + 1;
            }
        }
        proof {
            if !stop {
                assert(tv.skip(m as int).len() == 0);
                assert(virus_name(tv.skip(m as int)) =~= Seq::<char>::empty());
                assert(virus@ =~= virus@ + virus_name(tv.skip(m as int)));
            }
        }
        return ClamScanResult::Found(path, virus);
    }
    ClamScanResult::Error(String::from_str(seg))
}

impl ClamScanResult {
    /// Cuts a scan reply into NUL-separated segments, drops the empty
    /// ones, and classifies each remaining segment, in the order the
    /// daemon sent them.  A directory scan may report many files, so the
    /// result is a sequence.
    pub fn parse(s_string: &str) -> (r: Vec<ClamScanResult>)
        ensures
            r@.map_values(|x: ClamScanResult| x@) == scan_results(s_string@),
    {
        let segs = keep_nonempty(split_on_char(s_string, '\0'));
        let ghost sl = seg_list(s_string@);
        proof {
            assert(segs.deep_view() == sl);
        }
        let n: usize = segs.len();
        let mut out: Vec<ClamScanResult> = Vec::new();
        let mut i: usize = 0;
        proof {
            assert(out@.map_values(|x: ClamScanResult| x@) =~~= sl.take(0).map_values(
                |seg: Seq<char>| classify(seg),
            ));
        }
        while i < n
            invariant
                segs.deep_view() == sl,
                n == sl.len(),
                i <= n,
                out@.map_values(|x: ClamScanResult| x@) == sl.take(i as int).map_values(
                    |seg: Seq<char>| classify(seg),
                ),
            decreases n - i,
        {
            let ghost pre = out@;
            let one = classify_segment(segs[i].as_str());
            out.push(one);
            proof {
                assert(segs[i as int]@ == sl[i as int]);
                assert(out@ == pre.push(one));
                Seq::lemma_push_map_commute(pre, |x: ClamScanResult| x@, one);
                Seq::lemma_map_take_succ(sl, |seg: Seq<char>| classify(seg), i as int);
                assert(one@ == classify(sl[i as int]));
                assert(out@.map_values(|x: ClamScanResult| x@) =~~= sl.take(i + 1).map_values(
                    |seg: Seq<char>| classify(seg),
                ));
            }
            i = i + 1;
        }
        proof {
            assert(sl.take(n as int) =~= sl);
            assert(out@.map_values(|x: ClamScanResult| x@) =~~= scan_results(s_string@));
        }
        out
    }

    /// A stream scan's reply must hold exactly one outcome; zero or
    /// several outcomes is a malformed reply, surfaced with the raw text.
    pub fn parse_single(text: &str) -> (r: Result<ClamScanResult, ClamError>)
        ensures
            match r {
                Ok(v) => scan_results(text@).len() == 1 && v@ == scan_results(text@)[0],
                Err(e) => scan_results(text@).len() != 1 && (e matches ClamError::InvalidData(t)
                    && t@ == text@),
            },
    {
        let mut rs = Self::parse(text);
        let ghost rv = rs@;
        if rs.len() == 1 {
            let v = rs.remove(0);
            proof {
                assert(v@ == rv.map_values(|x: ClamScanResult| x@)[0]);
            }
            Ok(v)
        } else {
            Err(ClamError::InvalidData(String::from_str(text)))
        }
    }
}

/// The metadata of a VERSION reply.
#[derive(Debug, Clone, PartialEq)]
pub struct ClamVersion {
    /// The name and version number of the responding daemon.
    pub version_tag: String,
    /// The build number of the responding daemon.
    pub build_number: u64,
    /// The daemon's release instant, as Unix seconds in UTC.
    pub release_date: i64,
}

/// What chrono reads out of a release-date field, as Unix seconds, or
/// nothing when the field does not fit the daemon's date format.
pub uninterp spec fn release_date_seconds(s: Seq<char>) -> Option<i64>;

/// Relies on chrono's `NaiveDateTime::parse_from_str` with the daemon's
/// fixed `"%a %b %e %T %Y"` date format, read as UTC, and on
/// `DateTime::timestamp` to carry the parsed instant as Unix seconds.
/// Both depend on the text alone.
#[verifier::external_body]
fn parse_release_date(s: &str) -> (r: Option<i64>)
    ensures
        r == release_date_seconds(s@),
{
    match chrono::NaiveDateTime::parse_from_str(s, "%a %b %e %T %Y") {
        Ok(dt) => Some(dt.and_utc().timestamp()),
        Err(_) => None,
    }
}

/// One trailing NUL removed, if the reply carries one.
pub open spec fn strip_nul(s: Seq<char>) -> Seq<char> {
    if s.len() > 0 && s.last() == '\0' {
        s.drop_last()
    } else {
        s
    }
}

/// The slash-separated fields of a VERSION reply, after the trailing NUL
/// is removed.
pub open spec fn version_fields(s: Seq<char>) -> Seq<Seq<char>> {
    split_when(strip_nul(s), eq_char('/'))
}

impl ClamVersion {
    /// Reads a VERSION reply of the form
    /// `version tag/build number/release date`.  A reply with any other
    /// number of fields is malformed; a build number that is not an
    /// unsigned 64-bit integer, or a release date chrono cannot read,
    /// each surface their own error with the offending field.
    pub fn parse(v_string: String) -> (r: Result<ClamVersion, ClamError>)
        ensures
            ({
                let fs = version_fields(v_string@);
                match r {
                    Ok(v) => fs.len() == 3 && is_u64_text(fs[1]) && release_date_seconds(
                        fs[2],
                    ) is Some && v.version_tag@ == fs[0] && v.build_number as int == u64_val(fs[1])
                        && Some(v.release_date) == release_date_seconds(fs[2]),
                    Err(e) => match e {
                        ClamError::InvalidData(t) => fs.len() != 3 && t@ == v_string@,
                        ClamError::IntParseError(t) => fs.len() == 3 && !is_u64_text(fs[1]) && t@
                            == fs[1],
                        ClamError::DateParseError(t) => fs.len() == 3 && is_u64_text(fs[1])
                            && release_date_seconds(fs[2]) is None && t@ == fs[2],
                        _ => false,
                    },
                }
            }),
    {
        let s = v_string.as_str();
        let cs = chars_of(s);
        let n: usize = cs.len();
        let stripped = if n > 0 && cs[n - 1] == '\0' {
            s.substring_char(0, n - 1)
        } else {
            s
        };
        proof {
            if n > 0 && s@.last() == '\0' {
                assert(s@.subrange(0, n - 1) =~= strip_nul(s@));
            }
            assert(stripped@ == strip_nul(v_string@));
        }
        let parts = split_on_char(stripped, '/');
        proof {
            assert(parts.deep_view() == version_fields(v_string@));
        }
        if parts.len() != 3 {
            return Err(ClamError::InvalidData(v_string));
        }
        let bn = match parse_u64_text(parts[1].as_str()) {
            Some(v) => v,
            None => {
                return Err(ClamError::IntParseError(parts[1].clone()));
            },
        };
        let dt = match parse_release_date(parts[2].as_str()) {
            Some(v) => v,
            None => {
                return Err(ClamError::DateParseError(parts[2].clone()));
            },
        };
        Ok(ClamVersion { version_tag: parts[0].clone(), build_number: bn, release_date: dt })
    }
}

/// The counters and gauges of a STATS reply.  Memory sizes keep the
/// daemon's own human-readable form, unit suffix and all, because the
/// suffix varies across daemon versions.
#[derive(Debug, Clone, PartialEq)]
pub struct ClamStats {
    /// The number of pools available to the daemon.
    pub pools: u64,
    /// The state line of the responding daemon.
    pub state: String,
    /// The number of live threads.
    pub threads_live: u64,
    /// The number of idle threads.
    pub threads_idle: u64,
    /// The largest number of threads the daemon may spawn.
    pub threads_max: u64,
    /// The seconds before a thread counts as idle.
    pub threads_idle_timeout_secs: u64,
    /// The number of queued items awaiting work.
    pub queue: u64,
    /// Memory allocated to the heap.
    pub mem_heap: String,
    /// Memory obtained by mmap.
    pub mem_mmap: String,
    /// Memory in use by the daemon.
    pub mem_used: String,
    /// Memory held but not in use.
    pub mem_free: String,
    /// Memory that could be released.
    pub mem_releasable: String,
    /// Pool memory in use by the daemon.
    pub pools_used: String,
    /// Pool memory available to the daemon.
    pub pools_total: String,
}

/// The sequence-level shape of a STATS reply's content.
pub struct StatsView {
    pub pools: int,
    pub state: Seq<char>,
    pub threads_live: int,
    pub threads_idle: int,
    pub threads_max: int,
    pub threads_idle_timeout_secs: int,
    pub queue: int,
    pub mem_heap: Seq<char>,
    pub mem_mmap: Seq<char>,
    pub mem_used: Seq<char>,
    pub mem_free: Seq<char>,
    pub mem_releasable: Seq<char>,
    pub pools_used: Seq<char>,
    pub pools_total: Seq<char>,
}

impl View for ClamStats {
    type V = StatsView;

    open spec fn view(&self) -> StatsView {
        StatsView {
            pools: self.pools as int,
            state: self.state@,
            threads_live: self.threads_live as int,
            threads_idle: self.threads_idle as int,
            threads_max: self.threads_max as int,
            threads_idle_timeout_secs: self.threads_idle_timeout_secs as int,
            queue: self.queue as int,
            mem_heap: self.mem_heap@,
            mem_mmap: self.mem_mmap@,
            mem_used: self.mem_used@,
            mem_free: self.mem_free@,
            mem_releasable: self.mem_releasable@,
            pools_used: self.pools_used@,
            pools_total: self.pools_total@,
        }
    }
}

/// The reply begins with the characters of `p`.
pub open spec fn begins_with(s: Seq<char>, p: Seq<char>) -> bool {
    match_at(s, p, 0)
}

/// The text before the first occurrence of `pat`, and the text after that
/// occurrence, or nothing when `pat` does not occur.
pub open spec fn scan_until(s: Seq<char>, pat: Seq<char>) -> Option<(Seq<char>, Seq<char>)> {
    match find_pat(s, pat) {
        Some(i) => Some((s.take(i), s.skip(i + pat.len()))),
        None => None,
    }
}

/// As `scan_until`, with the taken text read as an unsigned 64-bit
/// number; nothing when the anchor is missing or the text is not such a
/// number.
pub open spec fn num_until(s: Seq<char>, pat: Seq<char>) -> Option<(int, Seq<char>)> {
    match scan_until(s, pat) {
        Some(fr) => if is_u64_text(fr.0) {
            Some((u64_val(fr.0), fr.1))
        } else {
            None
        },
        None => None,
    }
}

/// How a STATS reply is read: a fixed sequence of literal-label anchored
/// scans, in the daemon's own order.  A missing anchor or a field that is
/// not a number gives nothing.
pub open spec fn stats_spec(s: Seq<char>) -> Option<StatsView> {
    if !begins_with(s, "POOLS: "@) {
        None
    } else {
        let s0 = s.skip("POOLS: "@.len() as int);
        match num_until(s0, "\n\nSTATE: "@) {
            None => None,
            Some((pools, s1)) => match scan_until(s1, "\nTHREADS: live "@) {
                None => None,
                Some((state, s2)) => match num_until(s2, "  idle "@) {
                    None => None,
                    Some((threads_live, s3)) => match num_until(s3, " max "@) {
                        None => None,
                        Some((threads_idle, s4)) => match num_until(s4, " idle-timeout "@) {
                            None => None,
                            Some((threads_max, s5)) => match num_until(s5, "\nQUEUE: "@) {
                                None => None,
                                Some((timeout_secs, s6)) => match num_until(s6, " items\n"@) {
                                    None => None,
                                    Some((queue, s7)) => match scan_until(s7, "heap "@) {
                                        None => None,
                                        Some((_led, s8)) => match scan_until(s8, " mmap "@) {
                                            None => None,
                                            Some((mem_heap, s9)) => match scan_until(
                                                s9,
                                                " used "@,
                                            ) {
                                                None => None,
                                                Some((mem_mmap, s10)) => match scan_until(
                                                    s10,
                                                    " free "@,
                                                ) {
                                                    None => None,
                                                    Some((mem_used, s11)) => match scan_until(
                                                        s11,
                                                        " releasable "@,
                                                    ) {
                                                        None => None,
                                                        Some((mem_free, s12)) => match scan_until(
                                                            s12,
                                                            " pools "@,
                                                        ) {
                                                            None => None,
                                                            Some((mem_releasable, s13)) => match scan_until(
                                                                s13,
                                                                "pools_used "@,
                                                            ) {
                                                                None => None,
                                                                Some((_led2, s14)) => match scan_until(
                                                                    s14,
                                                                    " pools_total "@,
                                                                ) {
                                                                    None => None,
                                                                    Some((pools_used, s15)) => match scan_until(
                                                                        s15,
                                                                        "\n"@,
                                                                    ) {
                                                                        None => None,
                                                                        Some((pools_total, _tail)) => Some(
                                                                            StatsView {
                                                                                pools,
                                                                                state,
                                                                                threads_live,
                                                                                threads_idle,
                                                                                threads_max,
                                                                                threads_idle_timeout_secs:
                                                                                    timeout_secs,
                                                                                queue,
                                                                                mem_heap,
                                                                                mem_mmap,
                                                                                mem_used,
                                                                                mem_free,
                                                                                mem_releasable,
                                                                                pools_used,
                                                                                pools_total,
                                                                            },
                                                                        ),
                                                                    },
                                                                },
                                                            },
                                                        },
                                                    },
                                                },
                                            },
                                        },
                                    },
                                },
                            },
                        },
                    },
                },
            },
        }
    }
}

/// Whether the reply begins with the characters of `pat`.
fn begins_with_exec(cs: &Vec<char>, pat: &str) -> (r: bool)
    ensures
        r == begins_with(cs@, pat@),
{
    let pat_cs = chars_of(pat);
    if pat_cs.len() > cs.len() {
        return false;
    }
    is_match_at(cs, &pat_cs, 0)
}

/// The text before the first occurrence of `pat` at or after `pos`, and
/// the position just after that occurrence.
fn take_until(s: &str, cs: &Vec<char>, pos: usize, pat: &str) -> (r: Option<(String, usize)>)
    requires
        cs@ == s@,
        pos <= s@.len(),
        pat@.len() >= 1,
    ensures
        match r {
            Some(fr) => fr.1 <= s@.len() && scan_until(s@.skip(pos as int), pat@) == Some(
                (fr.0@, s@.skip(fr.1 as int)),
            ),
            None => scan_until(s@.skip(pos as int), pat@) is None,
        },
{
    let pat_cs = chars_of(pat);
    let total: usize = cs.len();
    match find_pat_from(cs, &pat_cs, pos) {
        Some(i) => {
            let field = s.substring_char(pos, i);
            let m: usize = pat_cs.len();
            proof {
                assert(i + m <= total);
            }
            let newpos = i + m;
            proof {
                assert(s@.skip(pos as int).take(i - pos) =~= s@.subrange(pos as int, i as int));
                assert(s@.skip(pos as int).skip(i - pos + pat@.len()) =~= s@.skip(newpos as int));
            }
            Some((String::from_str(field), newpos))
        },
        None => None,
    }
}

/// As `take_until`, with the taken text read as an unsigned 64-bit
/// number.
fn take_num_until(s: &str, cs: &Vec<char>, pos: usize, pat: &str) -> (r: Option<(u64, usize)>)
    requires
        cs@ == s@,
        pos <= s@.len(),
        pat@.len() >= 1,
    ensures
        match r {
            Some(nr) => nr.1 <= s@.len() && num_until(s@.skip(pos as int), pat@) == Some(
                (nr.0 as int, s@.skip(nr.1 as int)),
            ),
            None => num_until(s@.skip(pos as int), pat@) is None,
        },
{
    match take_until(s, cs, pos, pat) {
        Some(fr) => {
            let (field, newpos) = fr;
            match parse_u64_text(field.as_str()) {
                Some(v) => Some((v, newpos)),
                None => None,
            }
        },
        None => None,
    }
}

impl ClamStats {
    /// Reads a STATS reply by the daemon's fixed labels, in order.  Any
    /// missing label, and any counter that is not an unsigned 64-bit
    /// number, makes the whole reply malformed: the raw text is carried
    /// in the error and no partial record is ever returned.
    pub fn parse(s_string: &str) -> (r: Result<ClamStats, ClamError>)
        ensures
            match r {
                Ok(st) => stats_spec(s_string@) == Some(st@),
                Err(e) => stats_spec(s_string@) is None && (e matches ClamError::InvalidData(t)
                    && t@ == s_string@),
            },
    {
        let cs = chars_of(s_string);
        if !begins_with_exec(&cs, "POOLS: ") {
            return Err(ClamError::InvalidData(String::from_str(s_string)));
        }
        let pos: usize = "POOLS: ".unicode_len();
        proof {
            reveal_strlit("POOLS: ");
            reveal_strlit("\n\nSTATE: ");
            reveal_strlit("\nTHREADS: live ");
            reveal_strlit("  idle ");
            reveal_strlit(" max ");
            reveal_strlit(" idle-timeout ");
            reveal_strlit("\nQUEUE: ");
            reveal_strlit(" items\n");
            reveal_strlit("heap ");
            reveal_strlit(" mmap ");
            reveal_strlit(" used ");
            reveal_strlit(" free ");
            reveal_strlit(" releasable ");
            reveal_strlit(" pools ");
            reveal_strlit("pools_used ");
            reveal_strlit(" pools_total ");
            reveal_strlit("\n");
        }
        let (pools, pos) = match take_num_until(s_string, &cs, pos, "\n\nSTATE: ") {
            Some(x) => x,
            None => {
                return Err(ClamError::InvalidData(String::from_str(s_string)));
            },
        };
        let (state, pos) = match take_until(s_string, &cs, pos, "\nTHREADS: live ") {
            Some(x) => x,
            None => {
                return Err(ClamError::InvalidData(String::from_str(s_string)));
            },
        };
        let (threads_live, pos) = match take_num_until(s_string, &cs, pos, "  idle ") {
            Some(x) => x,
            None => {
                return Err(ClamError::InvalidData(String::from_str(s_string)));
            },
        };
        let (threads_idle, pos) = match take_num_until(s_string, &cs, pos, " max ") {
            Some(x) => x,
            None => {
                return Err(ClamError::InvalidData(String::from_str(s_string)));
            },
        };
        let (threads_max, pos) = match take_num_until(s_string, &cs, pos, " idle-timeout ") {
            Some(x) => x,
            None => {
                return Err(ClamError::InvalidData(String::from_str(s_string)));
            },
        };
        let (timeout_secs, pos) = match take_num_until(s_string, &cs, pos, "\nQUEUE: ") {
            Some(x) => x,
            None => {
                return Err(ClamError::InvalidData(String::from_str(s_string)));
            },
        };
        let (queue, pos) = match take_num_until(s_string, &cs, pos, " items\n") {
            Some(x) => x,
            None => {
                return Err(ClamError::InvalidData(String::from_str(s_string)));
            },
        };
        let (_led, pos) = match take_until(s_string, &cs, pos, "heap ") {
            Some(x) => x,
            None => {
                return Err(ClamError::InvalidData(String::from_str(s_string)));
            },
        };
        let (mem_heap, pos) = match take_until(s_string, &cs, pos, " mmap ") {
            Some(x) => x,
            None => {
                return Err(ClamError::InvalidData(String::from_str(s_string)));
            },
        };
        let (mem_mmap, pos) = match take_until(s_string, &cs, pos, " used ") {
            Some(x) => x,
            None => {
                return Err(ClamError::InvalidData(String::from_str(s_string)));
            },
        };
        let (mem_used, pos) = match take_until(s_string, &cs, pos, " free ") {
            Some(x) => x,
            None => {
                return Err(ClamError::InvalidData(String::from_str(s_string)));
            },
        };
        let (mem_free, pos) = match take_until(s_string, &cs, pos, " releasable ") {
            Some(x) => x,
            None => {
                return Err(ClamError::InvalidData(String::from_str(s_string)));
            },
        };
        let (mem_releasable, pos) = match take_until(s_string, &cs, pos, " pools ") {
            Some(x) => x,
            None => {
                return Err(ClamError::InvalidData(String::from_str(s_string)));
            },
        };
        let (_led2, pos) = match take_until(s_string, &cs, pos, "pools_used ") {
            Some(x) => x,
            None => {
                return Err(ClamError::InvalidData(String::from_str(s_string)));
            },
        };
        let (pools_used, pos) = match take_until(s_string, &cs, pos, " pools_total ") {
            Some(x) => x,
            None => {
                return Err(ClamError::InvalidData(String::from_str(s_string)));
            },
        };
        let (pools_total, _pos) = match take_until(s_string, &cs, pos, "\n") {
            Some(x) => x,
            None => {
                return Err(ClamError::InvalidData(String::from_str(s_string)));
            },
        };
        let st = ClamStats {
            pools,
            state,
            threads_live,
            threads_idle,
            threads_max,
            threads_idle_timeout_secs: timeout_secs,
            queue,
            mem_heap,
            mem_mmap,
            mem_used,
            mem_free,
            mem_releasable,
            pools_used,
            pools_total,
        };
        proof {
            assert(stats_spec(s_string@) == Some(st@));
        }
        Ok(st)
    }
}

/// Whether a PING reply is the daemon's `PONG`.
pub fn is_pong(resp: &str) -> (r: bool)
    ensures
        r == (resp@ == "PONG"@),
{
    let cs = chars_of(resp);
    proof {
        reveal_strlit("PONG");
    }
    if cs.len() != 4 {
        return false;
    }
    let r = cs[0] == 'P' && cs[1] == 'O' && cs[2] == 'N' && cs[3] == 'G';
    proof {
        if r {
            assert(resp@ =~= "PONG"@);
        }
    }
    r
}

/// A segment that truly ends in `OK` and nowhere holds the word `FOUND`
/// always reads as clean, whatever comes before the trailing `OK`.
pub proof fn lemma_ok_suffix_is_clean(seg: Seq<char>)
    requires
        ends_with_ok(seg),
        !has_found(seg),
    ensures
        classify(seg) is Clean,
{
}

/// Outcomes follow the segments: one outcome per non-empty segment, each
/// the reading of its own segment, in the same order.
pub proof fn lemma_outcomes_follow_segments(text: Seq<char>)
    ensures
        scan_results(text).len() == seg_list(text).len(),
        forall|i: int|
            0 <= i < seg_list(text).len() ==> scan_results(text)[i] == classify(seg_list(text)[i]),
{
}

} // verus!
