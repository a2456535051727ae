//! Reading a whole address extract into a store.
//!
//! An extract is UTF-8 text, compressed as a zstd stream. Its first line is
//! a header; every further line is one address. One line that cannot be
//! taken fails the whole extract: there is no store with part of the lines.

use vstd::prelude::*;
use vstd::slice::slice_subrange;
use vstd::utf8::{decode_utf8, encode_utf8, encode_utf8_decode_utf8, valid_utf8};
use crate::address::AddressView;
use crate::line::{LineError, decode_line, decoded};
use crate::store::{AddressStore, distinct_ids, find, holds_id, lemma_find_own};

verus! {

/// The byte that ends a line.
pub const LINE_FEED: u8 = 0x0A;

/// The byte that may stand before the end of a line and is no part of it.
pub const CARRIAGE_RETURN: u8 = 0x0D;

/// Why an extract gives no store. Lines are counted from 0, the header
/// being line 0.
#[derive(Clone, Copy, Debug, PartialEq, Eq, Structural)]
pub enum IngestError {
    /// The data is not a zstd stream.
    Compression,
    /// The line is not UTF-8.
    Encoding { line: usize },
    /// The line is not an address.
    Line { line: usize, error: LineError },
    /// The `id` of the line is that of an earlier line.
    DuplicateId { line: usize },
}

/// What a zstd stream holds once it is decompressed, or `None` where the
/// data is no such stream.
pub uninterp spec fn zstd_decoded(data: Seq<u8>) -> Option<Seq<u8>>;

/// The bytes of an optional vector.
pub open spec fn bytes_of(v: Option<Vec<u8>>) -> Option<Seq<u8>> {
    match v {
        Some(bytes) => Some(bytes@),
        None => None,
    }
}

/// `zstd::stream::decode_all` on a slice of bytes: the frames of the stream
/// are decompressed one after the other into one vector, and any failure of
/// the decoder gives `None`. Nothing is proved of this. Given memory enough
/// for the decoder and its output, what comes back depends on the bytes
/// alone, so it has a name, `zstd_decoded`.
#[verifier::external_body]
fn decompress(data: &[u8]) -> (r: Option<Vec<u8>>)
    ensures
        bytes_of(r) == zstd_decoded(data@),
{
    zstd::stream::decode_all(data).ok()
}

/// `std::str::from_utf8`: the bytes as text where they are UTF-8, and
/// `None` where they are not. The text, encoded again, is the bytes.
/// Nothing is proved of this.
#[verifier::external_body]
fn utf8_text(bytes: &[u8]) -> (r: Option<&str>)
    ensures
        r is Some <==> valid_utf8(bytes@),
        r matches Some(text) ==> encode_utf8(text@) == bytes@,
{
    std::str::from_utf8(bytes).ok()
}

/// How many bytes stand before the first line feed, or before the end where
/// there is no line feed.
pub open spec fn first_break(data: Seq<u8>) -> nat
    decreases data.len(),
{
    if data.len() == 0 || data[0] == LINE_FEED {
        0
    } else {
        1 + first_break(data.drop_first())
    }
}

/// A line without the carriage return at its end, if it has one.
pub open spec fn without_return(line: Seq<u8>) -> Seq<u8> {
    if line.len() > 0 && line.last() == CARRIAGE_RETURN {
        line.drop_last()
    } else {
        line
    }
}

/// The lines of an extract. Each line ends at a line feed, the last one
/// also at the end of the data. Neither the line feed nor a carriage return
/// before it belongs to the line. Empty data has no line.
pub open spec fn lines_of(data: Seq<u8>) -> Seq<Seq<u8>>
    decreases data.len(),
{
    if data.len() == 0 {
        Seq::empty()
    } else {
        let n = first_break(data);
        let line = without_return(data.take(n as int));
        if n < data.len() {
            seq![line] + lines_of(data.skip(n as int + 1))
        } else {
            seq![line]
        }
    }
}

/// The text of a line, or `None` where the line is not UTF-8.
pub open spec fn text_of_line(line: Seq<u8>) -> Option<Seq<char>> {
    if valid_utf8(line) {
        Some(decode_utf8(line))
    } else {
        None
    }
}

/// The records after one more line, or the fault of that line. A line is
/// at fault where it is not UTF-8, is not an address, or brings the `id` of
/// one of the records.
pub open spec fn with_line(records: Seq<AddressView>, line: Seq<u8>, number: usize) -> Result<
    Seq<AddressView>,
    IngestError,
> {
    match text_of_line(line) {
        None => Err(IngestError::Encoding { line: number }),
        Some(text) => match decoded(text) {
            Err(error) => Err(IngestError::Line { line: number, error }),
            Ok(address) => if holds_id(records, address.id) {
                Err(IngestError::DuplicateId { line: number })
            } else {
                Ok(records.push(address))
            },
        },
    }
}

/// What the first `n` lines give: the addresses of the lines after the
/// header in their order, or the first fault.
pub open spec fn ingested(lines: Seq<Seq<u8>>, n: nat) -> Result<Seq<AddressView>, IngestError>
    decreases n,
{
    if n <= 1 {
        Ok(Seq::empty())
    } else {
        match ingested(lines, (n - 1) as nat) {
            Err(fault) => Err(fault),
            Ok(records) => with_line(records, lines[n - 1], (n - 1) as usize),
        }
    }
}

/// What the text of an extract gives.
pub open spec fn ingest_of(data: Seq<u8>) -> Result<Seq<AddressView>, IngestError> {
    ingested(lines_of(data), lines_of(data).len())
}

/// What a compressed extract gives.
pub open spec fn ingest_of_stream(stream: Option<Seq<u8>>) -> Result<
    Seq<AddressView>,
    IngestError,
> {
    match stream {
        Some(data) => ingest_of(data),
        None => Err(IngestError::Compression),
    }
}

/// Data whose first `n` bytes are no line feeds and which ends there, or
/// goes on with a line feed, has its first break at `n`.
proof fn lemma_first_break(data: Seq<u8>, n: int)
    requires
        0 <= n <= data.len(),
        forall|i: int| 0 <= i < n ==> #[trigger] data[i] != LINE_FEED,
        n < data.len() ==> data[n] == LINE_FEED,
    ensures
        first_break(data) == n,
    decreases n,
{
    if n > 0 {
        let rest = data.drop_first();
        assert forall|i: int| 0 <= i < n - 1 implies #[trigger] rest[i] != LINE_FEED by {
            assert(rest[i] == data[i + 1]);
        }
        lemma_first_break(rest, n - 1);
    }
}

/// A fault stays: more lines do not change it.
proof fn lemma_fault_stays(lines: Seq<Seq<u8>>, n: nat, m: nat)
    requires
        n <= m,
        ingested(lines, n) is Err,
    ensures
        ingested(lines, m) == ingested(lines, n),
    decreases m,
{
    if n < m {
        lemma_fault_stays(lines, n, (m - 1) as nat);
    }
}

/// Where the first `n` lines give records, they give one for each line
/// after the header, and no two of them share an `id`.
pub proof fn lemma_ingested_distinct(lines: Seq<Seq<u8>>, n: nat)
    requires
        ingested(lines, n) is Ok,
    ensures
        ingested(lines, n)->Ok_0.len() == (if n == 0 {
            0
        } else {
            n - 1
        }),
        distinct_ids(ingested(lines, n)->Ok_0),
    decreases n,
{
    if n > 1 {
        lemma_ingested_distinct(lines, (n - 1) as nat);
        let before = ingested(lines, (n - 1) as nat)->Ok_0;
        let after = ingested(lines, n)->Ok_0;
        assert forall|i: int, j: int| 0 <= i < j < after.len() implies (#[trigger] after[i]).id != (
        #[trigger] after[j]).id by {
            assert(after[i] == before[i]);
            if j < before.len() {
                assert(after[j] == before[j]);
            }
        }
    }
}

/// Every record that the lines give is what its own line decodes to, and a
/// search by its `id` finds it: record `i` comes from line `i + 1`.
pub proof fn lemma_round_trip(lines: Seq<Seq<u8>>, n: nat, i: int)
    requires
        ingested(lines, n) is Ok,
        0 <= i < ingested(lines, n)->Ok_0.len(),
    ensures
        i + 1 < n,
        text_of_line(lines[i + 1]) is Some,
        decoded(text_of_line(lines[i + 1])->0) == Ok::<AddressView, LineError>(
            ingested(lines, n)->Ok_0[i],
        ),
        find(ingested(lines, n)->Ok_0, ingested(lines, n)->Ok_0[i].id) == Some(
            ingested(lines, n)->Ok_0[i],
        ),
    decreases n,
{
    lemma_ingested_distinct(lines, n);
    lemma_find_own(ingested(lines, n)->Ok_0, i);
    if n > 1 {
        lemma_ingested_distinct(lines, (n - 1) as nat);
        if i + 1 < n - 1 {
            lemma_round_trip(lines, (n - 1) as nat, i);
        }
    }
}

/// The end of the line that begins at `start`: the position of the next
/// line feed, or the end of the data.
fn line_end(data: &[u8], start: usize) -> (end: usize)
    requires
        start <= data.len(),
    ensures
        start <= end <= data.len(),
        end - start == first_break(data@.skip(start as int)),
{
    let mut end = start;
    while end < data.len() && data[end] != LINE_FEED
        invariant
            start <= end <= data.len(),
            forall|i: int| start <= i < end ==> #[trigger] data[i] != LINE_FEED,
        decreases data.len() - end,
    {
        end += 1;
    }
    proof {
        lemma_first_break(data@.skip(start as int), end - start);
    }
    end
}

/// The line without the carriage return at its end, if it has one.
fn trim_return(line: &[u8]) -> (r: &[u8])
    ensures
        r@ == without_return(line@),
{
    let n = line.len();
    if n > 0 && line[n - 1] == CARRIAGE_RETURN {
        slice_subrange(line, 0, n - 1)
    } else {
        line
    }
}

/// The line that begins at `start` and ends at `end` is the first of the
/// lines from `start` on, and the others are the lines from behind its line
/// feed on.
proof fn lemma_next_line(data: Seq<u8>, start: int, end: int)
    requires
        0 <= start < data.len(),
        start <= end <= data.len(),
        end - start == first_break(data.skip(start)),
    ensures
        lines_of(data.skip(start)).len() >= 1,
        lines_of(data.skip(start))[0] == without_return(data.subrange(start, end)),
        lines_of(data.skip(start)).skip(1) == lines_of(
            data.skip(
                if end < data.len() {
                    end + 1
                } else {
                    end
                },
            ),
        ),
{
    let rest = data.skip(start);
    assert(rest.take(end - start) == data.subrange(start, end));
    if end < data.len() {
        assert(rest.skip(end - start + 1) == data.skip(end + 1));
        assert((seq![without_return(rest.take(end - start))] + lines_of(data.skip(end + 1))).skip(1)
            == lines_of(data.skip(end + 1)));
    } else {
        assert(data.skip(end) == Seq::<u8>::empty());
        assert(seq![without_return(rest.take(end - start))].skip(1) == Seq::<Seq<u8>>::empty());
    }
}

/// Takes one line into the store.
fn ingest_line(store: &mut AddressStore, line: &[u8], number: usize) -> (r: Result<
    (),
    IngestError,
>)
    requires
        old(store).wf(),
    ensures
        final(store).wf(),
        match r {
            Ok(()) => with_line(old(store)@, line@, number) == Ok::<Seq<AddressView>, IngestError>(
                final(store)@,
            ),
            Err(fault) => with_line(old(store)@, line@, number) == Err::<
                Seq<AddressView>,
                IngestError,
            >(fault),
        },
{
    let text = match utf8_text(line) {
        Some(text) => text,
        None => {
            return Err(IngestError::Encoding { line: number });
        },
    };
    proof {
        encode_utf8_decode_utf8(text@);
    }
    let address = match decode_line(text) {
        Ok(address) => address,
        Err(error) => {
            return Err(IngestError::Line { line: number, error });
        },
    };
    match store.insert(address) {
        Ok(()) => Ok(()),
        Err(_) => Err(IngestError::DuplicateId { line: number }),
    }
}

/// Reads the text of an extract into a store.
///
/// The first line is passed over unread. Every further line must be UTF-8,
/// decode to an address, and bring an `id` that no earlier line brought.
/// The store holds the addresses in the order of their lines. The first
/// line at fault is reported with its number, and no store is returned.
pub fn ingest_text(data: &[u8]) -> (r: Result<AddressStore, IngestError>)
    ensures
        match r {
            Ok(store) => store.wf() && ingest_of(data@) == Ok::<Seq<AddressView>, IngestError>(
                store@,
            ),
            Err(fault) => ingest_of(data@) == Err::<Seq<AddressView>, IngestError>(fault),
        },
{
    let ghost lines = lines_of(data@);
    let mut store = AddressStore::new();
    let mut start: usize = 0;
    let mut number: usize = 0;
    proof {
        assert(data@.skip(0) == data@);
        assert(lines.skip(0) == lines);
    }
    while start < data.len()
        invariant
            lines == lines_of(data@),
            start <= data.len(),
            number <= start,
            number <= lines.len(),
            lines.skip(number as int) == lines_of(data@.skip(start as int)),
            store.wf(),
            ingested(lines, number as nat) == Ok::<Seq<AddressView>, IngestError>(store@),
        decreases data.len() - start,
    {
        let end = line_end(data, start);
        proof {
            lemma_next_line(data@, start as int, end as int);
            assert(lines.skip(number as int)[0] == lines[number as int]);
            assert(lines.skip(number as int).skip(1) == lines.skip(number + 1));
        }
        if number > 0 {
            let line = trim_return(slice_subrange(data, start, end));
            match ingest_line(&mut store, line, number) {
                Ok(()) => {},
                Err(fault) => {
                    proof {
                        lemma_fault_stays(lines, (number + 1) as nat, lines.len());
                    }
                    return Err(fault);
                },
            }
        }
        number += 1;
        start = if end < data.len() {
            end + 1
        } else {
            end
        };
    }
    proof {
        assert(data@.skip(start as int) == Seq::<u8>::empty());
        assert(lines.skip(number as int).len() == 0);
    }
    Ok(store)
}

/// Reads a compressed extract into a store.
///
/// Data that is no zstd stream gives `IngestError::Compression`; the
/// decompressed text is read as `ingest_text` reads it.
pub fn ingest_compressed(data: &[u8]) -> (r: Result<AddressStore, IngestError>)
    ensures
        match r {
            Ok(store) => store.wf() && ingest_of_stream(zstd_decoded(data@)) == Ok::<
                Seq<AddressView>,
                IngestError,
            >(store@),
            Err(fault) => ingest_of_stream(zstd_decoded(data@)) == Err::<
                Seq<AddressView>,
                IngestError,
            >(fault),
        },
{
    match decompress(data) {
        Some(text) => ingest_text(text.as_slice()),
        None => Err(IngestError::Compression),
    }
}

} // verus!
