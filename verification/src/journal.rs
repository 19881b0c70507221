//! The framing of the log: one record to a line.
//!
//! What a record holds is not this module's business, only where it ends: at
//! a line feed, before which one carriage return is dropped. The last record
//! may go without its line feed.

use crate::codec::push_bytes;
use vstd::prelude::*;

verus! {

/// The line feed that ends a record.
pub const LINE_FEED: u8 = 10;

/// The carriage return that may stand before the line feed.
pub const CARRIAGE_RETURN: u8 = 13;

/// The bytes of a sequence of lines.
pub open spec fn line_views(lines: Seq<Vec<u8>>) -> Seq<Seq<u8>> {
    lines.map_values(|line: Vec<u8>| line@)
}

/// The place of the first line feed, or the length where there is none.
pub open spec fn first_line_feed(bytes: Seq<u8>) -> int
    decreases bytes.len(),
{
    if bytes.len() == 0 || bytes[0] == LINE_FEED {
        0
    } else {
        1 + first_line_feed(bytes.drop_first())
    }
}

/// A line without the carriage return that may end it.
pub open spec fn without_return(line: Seq<u8>) -> Seq<u8> {
    if line.len() > 0 && line.last() == CARRIAGE_RETURN {
        line.drop_last()
    } else {
        line
    }
}

/// The records of a log, in order.
pub open spec fn records_of(log: Seq<u8>) -> Seq<Seq<u8>>
    decreases log.len(),
{
    let end = first_line_feed(log);
    if log.len() == 0 {
        Seq::empty()
    } else if 0 <= end < log.len() {
        seq![without_return(log.take(end))] + records_of(log.skip(end + 1))
    } else {
        seq![log]
    }
}

/// A record as it is written: its bytes, then a line feed.
pub open spec fn framed(record: Seq<u8>) -> Seq<u8> {
    record.push(LINE_FEED)
}

/// The log that holds the given records and nothing else.
pub open spec fn log_of(records: Seq<Seq<u8>>) -> Seq<u8>
    decreases records.len(),
{
    if records.len() == 0 {
        Seq::empty()
    } else {
        framed(records.first()) + log_of(records.drop_first())
    }
}

/// Whether the bytes can stand as one record: no line feed among them, and
/// no carriage return at the end.
pub open spec fn fits_one_line(record: Seq<u8>) -> bool {
    &&& forall|i: int| 0 <= i < record.len() ==> record[i] != LINE_FEED
    &&& !(record.len() > 0 && record.last() == CARRIAGE_RETURN)
}

/// The first line feed is where no byte before it is one.
pub proof fn lemma_first_line_feed(bytes: Seq<u8>, end: int)
    requires
        0 <= end <= bytes.len(),
        forall|i: int| 0 <= i < end ==> bytes[i] != LINE_FEED,
        end < bytes.len() ==> bytes[end] == LINE_FEED,
    ensures
        first_line_feed(bytes) == end,
    decreases end,
{
    if end > 0 {
        lemma_first_line_feed(bytes.drop_first(), end - 1);
    }
}

/// Reading a log gives back the records that were written to it, in order,
/// where each fits one line.
pub proof fn lemma_log_round_trip(records: Seq<Seq<u8>>)
    requires
        forall|i: int| 0 <= i < records.len() ==> fits_one_line(#[trigger] records[i]),
    ensures
        records_of(log_of(records)) == records,
    decreases records.len(),
{
    if records.len() > 0 {
        let first = records.first();
        let rest = records.drop_first();
        let log = log_of(records);
        assert(fits_one_line(first));
        assert forall|i: int| 0 <= i < rest.len() implies fits_one_line(#[trigger] rest[i]) by {
            assert(rest[i] == records[i + 1]);
        }
        lemma_log_round_trip(rest);
        lemma_first_line_feed(log, first.len() as int);
        assert(log.take(first.len() as int) =~= first);
        assert(log.skip(first.len() as int + 1) =~= log_of(rest));
        assert(records =~= seq![first] + rest);
    }
}

/// Splits a log into its records.
pub fn split_records(log: &[u8]) -> (records: Vec<Vec<u8>>)
    ensures
        line_views(records@) == records_of(log@),
{
    let mut records: Vec<Vec<u8>> = Vec::new();
    let mut line: Vec<u8> = Vec::new();
    let mut start: usize = 0;
    let mut i: usize = 0;
    assert(log@.skip(0) =~= log@);
    assert(line_views(records@) =~= Seq::<Seq<u8>>::empty());
    while i < log.len()
        invariant
            start <= i <= log.len(),
            line@ == log@.subrange(start as int, i as int),
            forall|j: int| start <= j < i ==> log@[j] != LINE_FEED,
            records_of(log@) == line_views(records@) + records_of(log@.skip(start as int)),
        decreases log.len() - i,
    {
        let byte = log[i];
        if byte == LINE_FEED {
            let ghost rest = log@.skip(start as int);
            let ghost whole = line@;
            let ghost before = records@;
            if line.len() > 0 && line[line.len() - 1] == CARRIAGE_RETURN {
                line.pop();
            }
            assert(line@ == without_return(whole));
            records.push(line);
            line = Vec::new();
            proof {
                lemma_first_line_feed(rest, i - start);
                assert(rest.take(i - start) =~= whole);
                assert(rest.skip(i - start + 1) =~= log@.skip(i + 1));
                assert(line_views(records@) =~= line_views(before).push(without_return(whole)));
                assert(records_of(log@) =~= line_views(records@) + records_of(log@.skip(i + 1)));
            }
            start = i + 1;
            assert(line@ =~= log@.subrange(start as int, i + 1));
        } else {
            line.push(byte);
            assert(line@ =~= log@.subrange(start as int, i + 1));
        }
        i += 1;
    }
    let ghost rest = log@.skip(start as int);
    if start < log.len() {
        let ghost before = records@;
        records.push(line);
        proof {
            lemma_first_line_feed(rest, rest.len() as int);
            assert(line@ =~= rest);
            assert(line_views(records@) =~= line_views(before).push(rest));
            assert(records_of(rest) =~= seq![rest]);
        }
    } else {
        assert(records_of(rest) =~= Seq::<Seq<u8>>::empty());
    }
    assert(records_of(log@) =~= line_views(records@));
    records
}

/// A record as it is written to the log.
pub fn frame_record(record: &[u8]) -> (line: Vec<u8>)
    ensures
        line@ == framed(record@),
{
    let mut line: Vec<u8> = Vec::new();
    push_bytes(&mut line, record);
    line.push(LINE_FEED);
    line
}

} // verus!
