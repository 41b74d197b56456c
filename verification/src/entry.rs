//! The format of a report and of a cache entry.
//!
//! A report is what the interception layer hands over when its process
//! ends: every recorded path, each followed by one NUL byte. A cache entry
//! is a report, then one more NUL byte (an empty record, the sentinel), then
//! the path of the result, which has no terminator:
//!
//! ```text
//! path_1 NUL path_2 NUL ... path_n NUL NUL result_path
//! ```
//!
//! Reading is lenient, so that a damaged file is never an error: the bytes
//! are split at every NUL, the records before the first empty one are the
//! dependencies, and the first record after it that is not empty is the
//! result. A file without such a record holds no entry.

use vstd::prelude::*;
use crate::bytes::{
    append, byte_strings, copy_range, find_nul, first_nul, is_path, lemma_first_nul,
    lemma_first_nul_unique, nul_free, NUL,
};

verus! {

/// What a cache entry says: the dependencies in the order in which they
/// were stored, and the path of the result.
pub ghost struct EntryView {
    pub dependencies: Seq<Seq<u8>>,
    pub result: Seq<u8>,
}

/// A cache entry.
#[derive(Clone, Debug, PartialEq, Eq)]
pub struct CacheEntry {
    pub dependencies: Vec<Vec<u8>>,
    pub result: Vec<u8>,
}

impl View for CacheEntry {
    type V = EntryView;

    open spec fn view(&self) -> EntryView {
        EntryView { dependencies: byte_strings(self.dependencies@), result: self.result@ }
    }
}

/// The records of `bytes`: the stretches between its NUL bytes, so that a
/// string with `n` NUL bytes has `n + 1` records.
pub open spec fn records_of(bytes: Seq<u8>) -> Seq<Seq<u8>>
    decreases bytes.len(),
{
    let k = first_nul(bytes) as int;
    if k < bytes.len() {
        seq![bytes.take(k)] + records_of(bytes.skip(k + 1))
    } else {
        seq![bytes]
    }
}

/// The report of `paths`: each path followed by one NUL byte.
pub open spec fn report_of(paths: Seq<Seq<u8>>) -> Seq<u8> {
    paths.map_values(|p: Seq<u8>| p.push(NUL)).flatten()
}

/// The bytes of the entry that stores `entry`.
pub open spec fn encoding_of(entry: EntryView) -> Seq<u8> {
    report_of(entry.dependencies) + seq![NUL] + entry.result
}

/// The index of the first empty record, or `records.len()` if none is empty.
pub open spec fn first_empty(records: Seq<Seq<u8>>) -> nat
    decreases records.len(),
{
    if records.len() == 0 || records[0].len() == 0 {
        0
    } else {
        1 + first_empty(records.skip(1))
    }
}

/// The index of the first record that is not empty, or `records.len()` if
/// all are empty.
pub open spec fn first_nonempty(records: Seq<Seq<u8>>) -> nat
    decreases records.len(),
{
    if records.len() == 0 || records[0].len() > 0 {
        0
    } else {
        1 + first_nonempty(records.skip(1))
    }
}

/// The entry that a sequence of records holds: the records before the first
/// empty one are the dependencies, and the first record after it that is
/// not empty is the result.
pub open spec fn entry_in(records: Seq<Seq<u8>>) -> Option<EntryView> {
    let s = first_empty(records) as int;
    let tail = records.skip(s + 1);
    let r = first_nonempty(tail) as int;
    if s < records.len() && r < tail.len() {
        Some(EntryView { dependencies: records.take(s), result: tail[r] })
    } else {
        None
    }
}

/// The entry that `bytes` holds, if any.
pub open spec fn entry_of(bytes: Seq<u8>) -> Option<EntryView> {
    entry_in(records_of(bytes))
}

/// An entry whose dependencies and result can all name files. Only such an
/// entry survives being written and read back.
pub open spec fn storable(entry: EntryView) -> bool {
    &&& forall|i: int| 0 <= i < entry.dependencies.len() ==> is_path(#[trigger] entry.dependencies[i])
    &&& is_path(entry.result)
}

/// `first_empty` is in range, nothing before it is empty, and the record at
/// it, if there is one, is empty.
pub proof fn lemma_first_empty(records: Seq<Seq<u8>>)
    ensures
        first_empty(records) <= records.len(),
        forall|i: int| 0 <= i < first_empty(records) ==> (#[trigger] records[i]).len() > 0,
        first_empty(records) < records.len() ==> records[first_empty(records) as int].len() == 0,
    decreases records.len(),
{
    if records.len() > 0 && records[0].len() > 0 {
        let t = records.skip(1);
        lemma_first_empty(t);
        assert forall|i: int| 0 <= i < first_empty(records) implies (#[trigger] records[i]).len()
            > 0 by {
            if i > 0 {
                assert(t[i - 1] == records[i]);
            }
        }
    }
}

/// `first_nonempty` is in range, everything before it is empty, and the
/// record at it, if there is one, is not.
pub proof fn lemma_first_nonempty(records: Seq<Seq<u8>>)
    ensures
        first_nonempty(records) <= records.len(),
        forall|i: int| 0 <= i < first_nonempty(records) ==> (#[trigger] records[i]).len() == 0,
        first_nonempty(records) < records.len() ==> records[first_nonempty(records) as int].len()
            > 0,
    decreases records.len(),
{
    if records.len() > 0 && records[0].len() == 0 {
        let t = records.skip(1);
        lemma_first_nonempty(t);
        assert forall|i: int| 0 <= i < first_nonempty(records) implies (#[trigger] records[i]).len()
            == 0 by {
            if i > 0 {
                assert(t[i - 1] == records[i]);
            }
        }
    }
}

/// Records that are not empty, put in front, move the first empty record
/// back by their number.
pub proof fn lemma_first_empty_after(front: Seq<Seq<u8>>, back: Seq<Seq<u8>>)
    requires
        forall|i: int| 0 <= i < front.len() ==> (#[trigger] front[i]).len() > 0,
    ensures
        first_empty(front + back) == front.len() + first_empty(back),
    decreases front.len(),
{
    if front.len() > 0 {
        assert((front + back).skip(1) =~= front.skip(1) + back);
        lemma_first_empty_after(front.skip(1), back);
    }
}

/// The records of the bytes from `pos` on, in terms of those that follow
/// the first NUL byte at or after `pos`.
pub proof fn lemma_records_step(bytes: Seq<u8>, pos: int)
    requires
        0 <= pos <= bytes.len(),
    ensures
        ({
            let end = pos + first_nul(bytes.skip(pos));
            &&& pos <= end <= bytes.len()
            &&& end < bytes.len() ==> records_of(bytes.skip(pos)) == seq![bytes.subrange(pos, end)]
                + records_of(bytes.skip(end + 1))
            &&& end == bytes.len() ==> records_of(bytes.skip(pos)) == seq![bytes.subrange(pos, end)]
        }),
{
    let rest = bytes.skip(pos);
    let k = first_nul(rest) as int;
    lemma_first_nul(rest);
    if k < rest.len() {
        assert(rest.take(k) =~= bytes.subrange(pos, pos + k));
        assert(rest.skip(k + 1) =~= bytes.skip(pos + k + 1));
    }
}

/// A string without a NUL byte is its own single record.
pub proof fn lemma_records_of_nul_free(s: Seq<u8>)
    requires
        nul_free(s),
    ensures
        records_of(s) == seq![s],
{
    lemma_first_nul(s);
}

/// A NUL-free string and a NUL byte in front of `rest` add one record in
/// front of the records of `rest`.
pub proof fn lemma_records_of_terminated(p: Seq<u8>, rest: Seq<u8>)
    requires
        nul_free(p),
    ensures
        records_of(p.push(NUL) + rest) == seq![p] + records_of(rest),
{
    let all = p.push(NUL) + rest;
    let k = p.len() as int;
    lemma_first_nul_unique(all, k);
    assert(all.take(k) =~= p);
    assert(all.skip(k + 1) =~= rest);
}

/// The report of no paths is empty, and a path in front adds its bytes and
/// a NUL byte in front of the report of the others.
pub proof fn lemma_report_of_first(paths: Seq<Seq<u8>>)
    ensures
        paths.len() == 0 ==> report_of(paths) == Seq::<u8>::empty(),
        paths.len() > 0 ==> report_of(paths) == paths[0].push(NUL) + report_of(paths.skip(1)),
{
    let f = |p: Seq<u8>| p.push(NUL);
    if paths.len() > 0 {
        assert(paths.map_values(f).drop_first() =~= paths.skip(1).map_values(f));
    }
}

/// One more path at the end adds its bytes and a NUL byte at the end of the
/// report.
pub proof fn lemma_report_of_push(paths: Seq<Seq<u8>>, p: Seq<u8>)
    ensures
        report_of(paths.push(p)) == report_of(paths) + p.push(NUL),
{
    let f = |q: Seq<u8>| q.push(NUL);
    assert(paths.push(p).map_values(f) =~= paths.map_values(f).push(p.push(NUL)));
    paths.map_values(f).lemma_flatten_push(p.push(NUL));
}

/// The records of a report of NUL-free paths, followed by `rest`, are the
/// paths and then the records of `rest`.
pub proof fn lemma_records_of_report(paths: Seq<Seq<u8>>, rest: Seq<u8>)
    requires
        forall|i: int| 0 <= i < paths.len() ==> nul_free(#[trigger] paths[i]),
    ensures
        records_of(report_of(paths) + rest) == paths + records_of(rest),
    decreases paths.len(),
{
    lemma_report_of_first(paths);
    if paths.len() > 0 {
        let tail = paths.skip(1);
        lemma_records_of_report(tail, rest);
        assert(report_of(paths) + rest =~= paths[0].push(NUL) + (report_of(tail) + rest));
        lemma_records_of_terminated(paths[0], report_of(tail) + rest);
    }
}

/// Writing an entry and reading it back gives the same dependencies, in the
/// same order, and the same result, provided that every path in it can name
/// a file.
pub proof fn lemma_round_trip(entry: EntryView)
    requires
        storable(entry),
    ensures
        entry_of(encoding_of(entry)) == Some(entry),
{
    let deps = entry.dependencies;
    let tail_bytes = seq![NUL] + entry.result;
    // The records of the bytes are the dependencies, the sentinel and the
    // result.
    let empty = Seq::<u8>::empty();
    let back = seq![empty, entry.result];
    assert(encoding_of(entry) =~= report_of(deps) + tail_bytes);
    lemma_records_of_report(deps, tail_bytes);
    lemma_records_of_terminated(empty, entry.result);
    lemma_records_of_nul_free(entry.result);
    assert(records_of(tail_bytes) =~= back);
    // The sentinel is the first empty record.
    lemma_first_empty_after(deps, back);
    assert((deps + back).take(deps.len() as int) =~= deps);
}

/// The set of dependencies of an entry survives being written and read
/// back, and so does its result.
pub proof fn lemma_round_trip_set(entry: EntryView)
    requires
        storable(entry),
    ensures
        entry_of(encoding_of(entry)) is Some,
        entry_of(encoding_of(entry))->0.dependencies.to_set() == entry.dependencies.to_set(),
        entry_of(encoding_of(entry))->0.result == entry.result,
{
    lemma_round_trip(entry);
}

/// The report of `paths`.
pub fn serialize_report(paths: &Vec<Vec<u8>>) -> (out: Vec<u8>)
    ensures
        out@ == report_of(byte_strings(paths@)),
{
    let mut out: Vec<u8> = Vec::new();
    let mut i: usize = 0;
    proof {
        lemma_report_of_first(byte_strings(paths@.take(0)));
    }
    while i < paths.len()
        invariant
            i <= paths.len(),
            out@ == report_of(byte_strings(paths@.take(i as int))),
        decreases paths.len() - i,
    {
        append(&mut out, paths[i].as_slice());
        out.push(NUL);
        proof {
            let done = byte_strings(paths@.take(i as int));
            assert(byte_strings(paths@.take(i + 1)) =~= done.push(paths@[i as int]@));
            lemma_report_of_push(done, paths@[i as int]@);
        }
        i = i + 1;
    }
    assert(paths@.take(paths@.len() as int) =~= paths@);
    out
}

/// What follows the report in a cache entry: the sentinel and the path of
/// the result.
pub fn entry_trailer(result: &[u8]) -> (out: Vec<u8>)
    ensures
        out@ == seq![NUL] + result@,
{
    let mut out: Vec<u8> = Vec::new();
    out.push(NUL);
    append(&mut out, result);
    out
}

/// The bytes of the entry: its report, the sentinel, and the result path.
pub fn serialize_entry(entry: &CacheEntry) -> (out: Vec<u8>)
    ensures
        out@ == encoding_of(entry@),
{
    let mut out = serialize_report(&entry.dependencies);
    let trailer = entry_trailer(entry.result.as_slice());
    append(&mut out, trailer.as_slice());
    out
}

/// The entry that `bytes` holds, or `None` if they hold none: if no record
/// is empty, or none after the first empty one is not.
pub fn parse_entry(bytes: &[u8]) -> (r: Option<CacheEntry>)
    ensures
        match r {
            Some(entry) => entry_of(bytes@) == Some(entry@),
            None => entry_of(bytes@) is None,
        },
{
    let ghost records = records_of(bytes@);
    let mut dependencies: Vec<Vec<u8>> = Vec::new();
    let mut pos: usize = 0;
    assert(bytes@.skip(0) =~= bytes@);
    // The dependencies: every record up to the first empty one.
    loop
        invariant_except_break
            records == byte_strings(dependencies@) + records_of(bytes@.skip(pos as int)),
            forall|i: int|
                0 <= i < dependencies@.len() ==> (#[trigger] byte_strings(dependencies@)[i]).len()
                    > 0,
        invariant
            pos <= bytes.len(),
            records == records_of(bytes@),
        ensures
            first_empty(records) == dependencies@.len(),
            first_empty(records) < records.len(),
            records.take(first_empty(records) as int) == byte_strings(dependencies@),
            records.skip(first_empty(records) as int + 1) == records_of(bytes@.skip(pos as int)),
        decreases bytes.len() - pos,
    {
        let end = find_nul(bytes, pos);
        let ghost front = byte_strings(dependencies@);
        let ghost back = records_of(bytes@.skip(pos as int));
        proof {
            lemma_records_step(bytes@, pos as int);
            lemma_first_empty_after(front, back);
        }
        if end == bytes.len() {
            // The last record: whether it is empty or not, no result follows.
            proof {
                if end > pos {
                    assert(first_empty(back) == 1) by {
                        assert(first_empty(back.skip(1)) == 0);
                    }
                }
            }
            return None;
        }
        if end == pos {
            pos = end + 1;
            break ;
        }
        let record = copy_range(bytes, pos, end);
        dependencies.push(record);
        proof {
            assert(byte_strings(dependencies@) =~= front.push(record@));
            assert(front.push(record@) + records_of(bytes@.skip(end + 1)) =~= front + back);
        }
        pos = end + 1;
    }
    // The result: the first record after the sentinel that is not empty.
    let ghost tail = records_of(bytes@.skip(pos as int));
    let ghost mut skipped: int = 0;
    loop
        invariant
            pos <= bytes.len(),
            0 <= skipped <= tail.len(),
            tail.skip(skipped) == records_of(bytes@.skip(pos as int)),
            first_nonempty(tail) == skipped + first_nonempty(tail.skip(skipped)),
            records == records_of(bytes@),
            first_empty(records) == dependencies@.len(),
            first_empty(records) < records.len(),
            records.take(first_empty(records) as int) == byte_strings(dependencies@),
            records.skip(first_empty(records) as int + 1) == tail,
        decreases bytes.len() - pos,
    {
        let end = find_nul(bytes, pos);
        let ghost rest = tail.skip(skipped);
        proof {
            lemma_records_step(bytes@, pos as int);
        }
        if end > pos {
            let result = copy_range(bytes, pos, end);
            proof {
                assert(rest.len() >= 1);
            }
            return Some(CacheEntry { dependencies, result });
        }
        if end == bytes.len() {
            proof {
                assert(first_nonempty(rest) == 1) by {
                    assert(first_nonempty(rest.skip(1)) == 0);
                }
            }
            return None;
        }
        proof {
            assert(rest.skip(1) =~= tail.skip(skipped + 1));
            skipped = skipped + 1;
        }
        pos = end + 1;
    }
}

} // verus!
