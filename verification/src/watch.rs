use vstd::prelude::*;
use vstd::slice::slice_subrange;

verus! {

/// What a sequence of raw listing bytes decodes to as text.
pub uninterp spec fn decoded_of(b: Seq<u8>) -> Seq<char>;

/// Relies on std's String::from_utf8_lossy: the result is a function of the
/// bytes alone, and bytes that are all ASCII decode to the characters with
/// the same code points.
#[verifier::external_body]
fn decode_bytes(b: &[u8]) -> (r: String)
    ensures
        r@ == decoded_of(b@),
        (forall|i: int| 0 <= i < b@.len() ==> b@[i] < 128) ==> r@ == b@.map_values(
            |x: u8| x as char,
        ),
{
    String::from_utf8_lossy(b).to_string()
}

/// Index of the first occurrence of `b` in `s`; negative where none occurs.
pub open spec fn first_at(s: Seq<u8>, b: u8) -> int
    decreases s.len(),
{
    if s.len() == 0 {
        -1
    } else if s[0] == b {
        0
    } else if first_at(s.drop_first(), b) < 0 {
        -1
    } else {
        first_at(s.drop_first(), b) + 1
    }
}

pub proof fn lemma_first_at_props(s: Seq<u8>, b: u8)
    ensures
        first_at(s, b) < 0 ==> forall|k: int| 0 <= k < s.len() ==> s[k] != b,
        first_at(s, b) >= 0 ==> {
            &&& first_at(s, b) < s.len()
            &&& s[first_at(s, b)] == b
            &&& forall|k: int| 0 <= k < first_at(s, b) ==> s[k] != b
        },
    decreases s.len(),
{
    if s.len() == 0 {
    } else if s[0] == b {
    } else {
        let t = s.drop_first();
        lemma_first_at_props(t, b);
        assert(forall|k: int| 0 <= k < t.len() ==> t[k] == s[k + 1]);
        if first_at(t, b) < 0 {
            assert forall|k: int| 0 <= k < s.len() implies s[k] != b by {
                if k > 0 {
                    assert(t[k - 1] == s[k]);
                    assert(t[k - 1] != b);
                }
            }
        } else {
            let f = first_at(t, b) + 1;
            assert(s[f] == t[f - 1]);
            assert forall|k: int| 0 <= k < f implies s[k] != b by {
                if k > 0 {
                    assert(t[k - 1] == s[k]);
                    assert(t[k - 1] != b);
                }
            }
        }
    }
}

pub proof fn lemma_first_at_is(s: Seq<u8>, b: u8, i: int)
    requires
        0 <= i < s.len(),
        s[i] == b,
        forall|k: int| 0 <= k < i ==> s[k] != b,
    ensures
        first_at(s, b) == i,
{
    lemma_first_at_props(s, b);
    let f = first_at(s, b);
    if f < 0 {
        assert(s[i] != b);
    } else if f < i {
        assert(s[f] != b);
    } else if f > i {
        assert(s[i] != b);
    }
}

/// The identifier one line of the listing yields: its bytes before the first
/// period, decoded; a line without a period yields none.
pub open spec fn line_entry(line: Seq<u8>) -> Seq<Seq<char>> {
    let d = first_at(line, 46);
    if d < 0 {
        Seq::empty()
    } else {
        seq![decoded_of(line.subrange(0, d))]
    }
}

/// All identifiers a raw listing yields: the bytes split at newlines, each
/// line truncated at its first period; the fragment after the last newline
/// counts as a final line.
pub open spec fn entries_of(bytes: Seq<u8>) -> Seq<Seq<char>>
    decreases bytes.len(),
        via entries_of_decreases
{
    let nl = first_at(bytes, 10);
    if nl < 0 {
        line_entry(bytes)
    } else {
        line_entry(bytes.subrange(0, nl)) + entries_of(
            bytes.subrange(nl + 1, bytes.len() as int),
        )
    }
}

#[via_fn]
proof fn entries_of_decreases(bytes: Seq<u8>) {
    lemma_first_at_props(bytes, 10);
}

proof fn lemma_entries_of_no_newline(line: Seq<u8>)
    requires
        forall|k: int| 0 <= k < line.len() ==> line[k] != 10,
    ensures
        entries_of(line) == line_entry(line),
{
    lemma_first_at_props(line, 10);
    if first_at(line, 10) >= 0 {
        assert(line[first_at(line, 10)] != 10);
    }
}

proof fn lemma_entries_of_line_newline(line: Seq<u8>)
    requires
        forall|k: int| 0 <= k < line.len() ==> line[k] != 10,
    ensures
        entries_of(line + seq![10u8]) == line_entry(line),
{
    let s = line + seq![10u8];
    lemma_first_at_is(s, 10, line.len() as int);
    assert(s.subrange(0, line.len() as int) =~= line);
    assert(s.subrange(line.len() as int + 1, s.len() as int) =~= Seq::<u8>::empty());
    assert(entries_of(Seq::<u8>::empty()) =~= Seq::<Seq<char>>::empty());
    assert(entries_of(s) =~= line_entry(line));
}

proof fn lemma_entries_of_concat(prefix: Seq<u8>, suffix: Seq<u8>)
    requires
        prefix.len() == 0 || prefix.last() == 10,
    ensures
        entries_of(prefix + suffix) == entries_of(prefix) + entries_of(suffix),
    decreases prefix.len(),
{
    if prefix.len() == 0 {
        assert(prefix + suffix =~= suffix);
        assert(entries_of(prefix) =~= Seq::<Seq<char>>::empty());
        assert(entries_of(prefix) + entries_of(suffix) =~= entries_of(suffix));
    } else {
        lemma_first_at_props(prefix, 10);
        let nl = first_at(prefix, 10);
        if nl < 0 {
            assert(prefix.last() != 10);
        }
        lemma_first_at_is(prefix + suffix, 10, nl);
        let whole = prefix + suffix;
        assert(whole.subrange(0, nl) =~= prefix.subrange(0, nl));
        let tail = prefix.subrange(nl + 1, prefix.len() as int);
        assert(whole.subrange(nl + 1, whole.len() as int) =~= tail + suffix);
        if tail.len() > 0 {
            assert(tail.last() == prefix.last());
        }
        lemma_entries_of_concat(tail, suffix);
        assert(entries_of(prefix + suffix) =~= entries_of(prefix) + entries_of(suffix));
    }
}

/// Splits a raw directory listing into entry identifiers: one entry per
/// newline-delimited line, cut at the line's first period; a line without
/// a period yields no entry.
pub fn split_md(md_list: Vec<u8>) -> (r: Vec<String>)
    ensures
        r.deep_view() == entries_of(md_list@),
{
    let bytes: &[u8] = md_list.as_slice();
    let n: usize = bytes.len();
    let mut result: Vec<String> = Vec::new();
    let mut start: usize = 0;
    let mut dot: usize = 0;
    let mut has_dot: bool = false;
    let mut i: usize = 0;
    proof {
        assert(md_list@.take(0) =~= Seq::<u8>::empty());
        lemma_entries_of_no_newline(md_list@.take(0));
        lemma_first_at_props(md_list@.take(0), 46);
        assert(result.deep_view() =~= entries_of(md_list@.take(0)));
    }
    while i < n
        invariant
            0 <= start <= i <= n,
            n == md_list@.len(),
            bytes@ == md_list@,
            start == 0 || md_list@[start - 1] == 10,
            forall|k: int| start <= k < i ==> md_list@[k] != 10,
            has_dot ==> {
                &&& start <= dot < i
                &&& md_list@[dot as int] == 46
                &&& forall|k: int| start <= k < dot ==> md_list@[k] != 46
            },
            !has_dot ==> forall|k: int| start <= k < i ==> md_list@[k] != 46,
            result.deep_view() == entries_of(md_list@.take(start as int)),
        decreases n - i,
    {
        let ghost prev = result.deep_view();
        let c = bytes[i];
        if c == 10 {
            let ghost line = md_list@.subrange(start as int, i as int);
            if has_dot {
                let seg = slice_subrange(bytes, start, dot);
                result.push(decode_bytes(seg));
                proof {
                    lemma_first_at_is(line, 46, dot - start);
                    assert(line.subrange(0, dot - start) =~= seg@);
                    assert(line_entry(line) =~= seq![decoded_of(seg@)]);
                    assert(result.deep_view() =~= prev.push(decoded_of(seg@)));
                }
            } else {
                proof {
                    lemma_first_at_props(line, 46);
                    if first_at(line, 46) >= 0 {
                        assert(line[first_at(line, 46)] != 46);
                    }
                    assert(line_entry(line) =~= Seq::<Seq<char>>::empty());
                }
            }
            proof {
                lemma_entries_of_concat(md_list@.take(start as int), line + seq![10u8]);
                lemma_entries_of_line_newline(line);
                assert(md_list@.take(i + 1) =~= md_list@.take(start as int) + (line + seq![10u8]));
                assert(result.deep_view() =~= entries_of(md_list@.take(i + 1)));
            }
            start = i + 1;
            has_dot = false;
        } else if c == 46 {
            if !has_dot {
                dot = i;
                has_dot = true;
            }
        }
        i = i + 1;
    }
    let ghost fragment = md_list@.subrange(start as int, n as int);
    let ghost prev = result.deep_view();
    if has_dot {
        let seg = slice_subrange(bytes, start, dot);
        result.push(decode_bytes(seg));
        proof {
            lemma_first_at_is(fragment, 46, dot - start);
            assert(fragment.subrange(0, dot - start) =~= seg@);
            assert(line_entry(fragment) =~= seq![decoded_of(seg@)]);
            assert(result.deep_view() =~= prev.push(decoded_of(seg@)));
        }
    } else {
        proof {
            lemma_first_at_props(fragment, 46);
            if first_at(fragment, 46) >= 0 {
                assert(fragment[first_at(fragment, 46)] != 46);
            }
            assert(line_entry(fragment) =~= Seq::<Seq<char>>::empty());
        }
    }
    proof {
        lemma_entries_of_concat(md_list@.take(start as int), fragment);
        lemma_entries_of_no_newline(fragment);
        assert(md_list@ =~= md_list@.take(start as int) + fragment);
        assert(result.deep_view() =~= entries_of(md_list@));
    }
    result
}

/// What one poll reports: either the watched directory still lists the same
/// entries, or it changed, in which case the full new snapshot is carried.
#[derive(Debug)]
pub enum WatchEvent {
    HasChange(Vec<String>),
    NoChange,
}

/// Two snapshots count as unchanged exactly when they are equal as
/// sequences: same length, same entries, same order.
pub open spec fn snapshots_equal(previous: Seq<Seq<char>>, current: Seq<Seq<char>>) -> bool {
    previous == current
}

fn string_lists_equal(a: &Vec<String>, b: &Vec<String>) -> (r: bool)
    ensures
        r == snapshots_equal(a.deep_view(), b.deep_view()),
{
    if a.len() != b.len() {
        proof {
            assert(a.deep_view().len() != b.deep_view().len());
        }
        return false;
    }
    let mut i: usize = 0;
    while i < a.len()
        invariant
            0 <= i <= a.len(),
            a.len() == b.len(),
            forall|k: int| 0 <= k < i ==> a.deep_view()[k] == b.deep_view()[k],
        decreases a.len() - i,
    {
        if !(a[i] == b[i]) {
            proof {
                assert(a.deep_view()[i as int] != b.deep_view()[i as int]);
            }
            return false;
        }
        i = i + 1;
    }
    proof {
        assert(a.deep_view() =~= b.deep_view());
    }
    true
}

impl PartialEq for WatchEvent {
    fn eq(&self, other: &Self) -> (r: bool) {
        match (self, other) {
            (WatchEvent::NoChange, WatchEvent::NoChange) => true,
            (WatchEvent::HasChange(a), WatchEvent::HasChange(b)) => string_lists_equal(a, b),
            _ => false,
        }
    }
}

impl vstd::std_specs::cmp::PartialEqSpecImpl for WatchEvent {
    open spec fn obeys_eq_spec() -> bool {
        true
    }

    open spec fn eq_spec(&self, other: &Self) -> bool {
        match (self, other) {
            (WatchEvent::NoChange, WatchEvent::NoChange) => true,
            (WatchEvent::HasChange(a), WatchEvent::HasChange(b)) => a.deep_view() == b.deep_view(),
            _ => false,
        }
    }
}

/// Classifies the transition from the previous snapshot to the current one:
/// sequence equality means no change; any difference is reported together
/// with the full new snapshot, so the caller can rebuild from scratch.
pub fn diff(previous: &Vec<String>, current: Vec<String>) -> (r: WatchEvent)
    ensures
        snapshots_equal(previous.deep_view(), current.deep_view()) ==> r == WatchEvent::NoChange,
        !snapshots_equal(previous.deep_view(), current.deep_view()) ==> (r matches
            WatchEvent::HasChange(l) && l@ == current@),
{
    if string_lists_equal(previous, &current) {
        WatchEvent::NoChange
    } else {
        WatchEvent::HasChange(current)
    }
}

/// The one-shot poll decision on a fresh raw listing: parse the listing into
/// a snapshot and compare it against the previous one.
pub fn is_change(old_list: &Vec<String>, listing: Vec<u8>) -> (r: WatchEvent)
    ensures
        snapshots_equal(old_list.deep_view(), entries_of(listing@)) ==> r == WatchEvent::NoChange,
        !snapshots_equal(old_list.deep_view(), entries_of(listing@)) ==> (r matches
            WatchEvent::HasChange(l) && l.deep_view() == entries_of(listing@)),
{
    let markdowns = split_md(listing);
    diff(old_list, markdowns)
}

/// The differ is reflexive: any snapshot is unchanged against itself, and a
/// snapshot with one entry appended is changed against the original.
pub proof fn lemma_snapshots_equal_reflexive(s: Seq<Seq<char>>, entry: Seq<char>)
    ensures
        snapshots_equal(s, s),
        !snapshots_equal(s, s.push(entry)),
{
    assert(s.push(entry).len() == s.len() + 1);
}

} // verus!
