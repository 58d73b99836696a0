//! The record log: snapshots in the order they were written, each in a frame
//! of its own.
//!
//! A frame is the length of a snapshot's bytes, as a base-128 integer, and
//! then those bytes. A log is frames one after another and ends where its
//! bytes end.
//!
//! [`StoreStream`] does no input or output. A writer appends frames to a
//! buffer and hands the buffered bytes out on `flush`, for the caller to put
//! on disk. A reader is opened on the bytes of a log and takes one record per
//! `read`.

use crate::buffer::{contents, scratch_as_slice, scratch_len, scratch_new};
use crate::codec::{
    after, dec_data, dec_u64, decode, enc_data, enc_u64, encodable, encode_into, got,
    lemma_dec_data, lemma_dec_u64, lemma_join, take_u64,
};
use crate::data::{Data, DataView};
use crate::varint::{encode_var, lemma_varint_decode_bound, lemma_varint_prefix};
use vstd::prelude::*;
use vstd::slice::slice_subrange;

verus! {

/// Why a record could not be read.
#[derive(Clone, Copy, Debug, PartialEq, Eq, Structural)]
pub enum StoreError {
    /// The bytes at the read position are not a whole, well-formed frame.
    CorruptRecord,
}

/// A snapshot that fits in a frame.
pub open spec fn storable(d: DataView) -> bool {
    encodable(d) && enc_data(d).len() <= u64::MAX
}

/// The frame of a snapshot.
pub open spec fn enc_frame(d: DataView) -> Seq<u8> {
    enc_u64(enc_data(d).len() as u64) + enc_data(d)
}

/// The snapshot in the frame at the front of `s`, and what follows the
/// frame. There is none where the length cannot be read, where fewer bytes
/// follow than the length says, or where those bytes are not a snapshot.
pub open spec fn dec_frame(s: Seq<u8>) -> Option<(DataView, Seq<u8>)> {
    match dec_u64(s) {
        Some((len, rest)) => if len <= rest.len() {
            match dec_data(rest.take(len as int)) {
                Some(d) => Some((d, rest.skip(len as int))),
                None => None,
            }
        } else {
            None
        },
        None => None,
    }
}

/// The log that holds `records`, in order.
pub open spec fn enc_log(records: Seq<DataView>) -> Seq<u8>
    decreases records.len(),
{
    if records.len() == 0 {
        Seq::empty()
    } else {
        enc_frame(records[0]) + enc_log(records.skip(1))
    }
}

/// Replays `s` from the front: the records of the frames that can be read,
/// in order, and the bytes from the first place where no frame can be read.
/// These are no bytes at all exactly when `s` is a whole log.
pub open spec fn replay(s: Seq<u8>) -> (Seq<DataView>, Seq<u8>)
    decreases s.len(),
{
    match dec_frame(s) {
        Some((d, rest)) => if rest.len() < s.len() {
            (seq![d] + replay(rest).0, replay(rest).1)
        } else {
            (Seq::empty(), s)
        },
        None => (Seq::empty(), s),
    }
}

/// What a [`StoreStream`] stands for.
pub struct StoreView {
    /// Bytes that were handed out by `flush`, or that the log held when it
    /// was opened.
    pub durable: Seq<u8>,
    /// Bytes written since the last `flush`.
    pub buffered: Seq<u8>,
    /// Bytes that `read` has not consumed yet.
    pub unread: Seq<u8>,
}

impl StoreView {
    /// Everything that the log holds: what is durable, then what is buffered.
    pub open spec fn written(self) -> Seq<u8> {
        self.durable + self.buffered
    }

    /// The store after `d` was written to it.
    pub open spec fn after_write(self, d: DataView) -> StoreView {
        StoreView { buffered: self.buffered + enc_frame(d), ..self }
    }

    /// The store after a flush.
    pub open spec fn after_flush(self) -> StoreView {
        StoreView { durable: self.durable + self.buffered, buffered: Seq::empty(), ..self }
    }

    /// The store after one read.
    pub open spec fn after_read(self) -> StoreView {
        match dec_frame(self.unread) {
            Some((_, rest)) => StoreView { unread: rest, ..self },
            None => self,
        }
    }

    /// The store after everything that can be read was read.
    pub open spec fn after_read_all(self) -> StoreView {
        StoreView { unread: replay(self.unread).1, ..self }
    }
}

/// An append-only log of snapshots, and a cursor for replaying one.
pub struct StoreStream {
    pending: Vec<u8>,
    input: Vec<u8>,
    cursor: usize,
    flushed: Ghost<Seq<u8>>,
}

impl View for StoreStream {
    type V = StoreView;

    closed spec fn view(&self) -> StoreView {
        StoreView {
            durable: self.flushed@,
            buffered: self.pending@,
            unread: if self.cursor <= self.input@.len() {
                self.input@.skip(self.cursor as int)
            } else {
                Seq::empty()
            },
        }
    }
}

impl StoreStream {
    /// An empty log, to be written.
    pub fn create() -> (store: StoreStream)
        ensures
            store@ == (StoreView {
                durable: Seq::empty(),
                buffered: Seq::empty(),
                unread: Seq::empty(),
            }),
    {
        let store = StoreStream {
            pending: Vec::new(),
            input: Vec::new(),
            cursor: 0,
            flushed: Ghost(Seq::empty()),
        };
        assert(store.input@.skip(0) =~= Seq::<u8>::empty());
        store
    }

    /// The log whose bytes are `bytes`, to be replayed from its start.
    pub fn open(bytes: Vec<u8>) -> (store: StoreStream)
        ensures
            store@ == (StoreView { durable: bytes@, buffered: Seq::empty(), unread: bytes@ }),
    {
        let ghost all = bytes@;
        let store = StoreStream {
            pending: Vec::new(),
            input: bytes,
            cursor: 0,
            flushed: Ghost(all),
        };
        assert(store.input@.skip(0) =~= all);
        store
    }

    /// Appends the frame of `data` to the buffered bytes.
    pub fn write(&mut self, data: &Data)
        ensures
            final(self)@ == old(self)@.after_write(data@),
            storable(data@),
    {
        let mut payload = scratch_new();
        encode_into(&mut payload, data);
        assert(contents(payload) =~= enc_data(data@));
        let len = scratch_len(&payload);
        let prefix = encode_var(len as u64);
        self.pending.extend_from_slice(prefix.as_slice());
        self.pending.extend_from_slice(scratch_as_slice(&payload));
        proof {
            lemma_join(old(self).pending@, enc_u64(len as u64), enc_data(data@));
            assert(self.pending@ =~= old(self).pending@ + enc_u64(len as u64) + enc_data(data@));
        }
    }

    /// Takes the buffered bytes out, for the caller to make durable. The
    /// bytes count as durable from here on.
    pub fn flush(&mut self) -> (bytes: Vec<u8>)
        ensures
            bytes@ == old(self)@.buffered,
            final(self)@ == old(self)@.after_flush(),
    {
        let mut bytes = Vec::new();
        core::mem::swap(&mut bytes, &mut self.pending);
        self.flushed = Ghost(self.flushed@ + bytes@);
        bytes
    }

    /// Reads the next record. At the end of the log there is none. Where
    /// the bytes at the cursor are not a whole frame the read fails, and the
    /// cursor stays.
    pub fn read(&mut self) -> (record: Result<Option<Data>, StoreError>)
        ensures
            old(self)@.unread.len() == 0 ==> (record matches Ok(None)) && final(self)@ == old(
                self,
            )@,
            old(self)@.unread.len() > 0 ==> match dec_frame(old(self)@.unread) {
                Some((d, rest)) => {
                    &&& (record matches Ok(Some(data)) && data@ == d)
                    &&& final(self)@ == old(self)@.after_read()
                    &&& rest.len() < old(self)@.unread.len()
                },
                None => (record matches Err(StoreError::CorruptRecord)) && final(self)@ == old(
                    self,
                )@,
            },
    {
        if self.cursor >= self.input.len() {
            assert(self@.unread.len() == 0);
            return Ok(None);
        }
        let input = self.input.as_slice();
        let (len, start) = match take_u64(input, self.cursor) {
            Some(read) => read,
            None => {
                return Err(StoreError::CorruptRecord);
            },
        };
        if len > (input.len() - start) as u64 {
            return Err(StoreError::CorruptRecord);
        }
        let end = start + len as usize;
        let payload = slice_subrange(input, start, end);
        proof {
            assert(payload@ =~= input@.skip(start as int).take(len as int));
            assert(input@.skip(start as int).skip(len as int) =~= input@.skip(end as int));
        }
        match decode(payload) {
            Some(data) => {
                self.cursor = end;
                Ok(Some(data))
            },
            None => Err(StoreError::CorruptRecord),
        }
    }

    /// Reads every record from the cursor on. Stops at the end of the log,
    /// or at the first place where no frame can be read: then the replay
    /// fails, and the cursor stays at that place.
    pub fn read_all(&mut self) -> (records: Result<Vec<Data>, StoreError>)
        ensures
            final(self)@ == old(self)@.after_read_all(),
            match records {
                Ok(all) => final(self)@.unread.len() == 0 && views(all@) == replay(
                    old(self)@.unread,
                ).0,
                Err(error) => final(self)@.unread.len() > 0 && error == StoreError::CorruptRecord,
            },
    {
        let mut all: Vec<Data> = Vec::new();
        assert(views(all@) + replay(self@.unread).0 =~= replay(self@.unread).0);
        loop
            invariant
                self@.durable == old(self)@.durable,
                self@.buffered == old(self)@.buffered,
                replay(old(self)@.unread) == (
                    views(all@) + replay(self@.unread).0,
                    replay(self@.unread).1,
                ),
            decreases self@.unread.len(),
        {
            let ghost before = self@.unread;
            let ghost sofar = views(all@);
            match self.read() {
                Ok(Some(data)) => {
                    all.push(data);
                    proof {
                        let d = got(dec_frame(before));
                        assert(views(all@) =~= sofar.push(d));
                        assert(sofar + (seq![d] + replay(self@.unread).0) =~= sofar.push(d)
                            + replay(self@.unread).0);
                    }
                },
                Ok(None) => {
                    proof {
                        lemma_varint_decode_bound(before);
                        assert(sofar + Seq::<DataView>::empty() =~= sofar);
                    }
                    return Ok(all);
                },
                Err(error) => {
                    return Err(error);
                },
            }
        }
    }
}

/// The values of `records`, one for one.
pub open spec fn views(records: Seq<Data>) -> Seq<DataView> {
    Seq::new(records.len(), |i: int| records[i]@)
}

/// A frame that can be read is at least one byte long.
pub proof fn lemma_frame_progress(s: Seq<u8>)
    ensures
        dec_frame(s) is Some ==> after(dec_frame(s)).len() < s.len(),
{
    lemma_varint_decode_bound(s);
}

/// A frame is read back whole, whatever follows it.
pub proof fn lemma_frame_roundtrip(d: DataView, rest: Seq<u8>)
    requires
        storable(d),
    ensures
        dec_frame(enc_frame(d) + rest) == Some((d, rest)),
{
    let payload = enc_data(d);
    lemma_join(enc_u64(payload.len() as u64), payload, rest);
    lemma_dec_u64(payload.len() as u64, payload + rest);
    assert((payload + rest).take(payload.len() as int) =~= payload);
    assert((payload + rest).skip(payload.len() as int) =~= rest);
    lemma_dec_data(d);
}

/// A frame cut short cannot be read.
pub proof fn lemma_frame_truncated(d: DataView, cut: int)
    requires
        storable(d),
        0 <= cut < enc_frame(d).len(),
    ensures
        dec_frame(enc_frame(d).take(cut)) is None,
{
    let payload = enc_data(d);
    let len = payload.len() as u64;
    let prefix = enc_u64(len);
    let head = enc_frame(d).take(cut);
    if cut < prefix.len() {
        assert(head =~= prefix.take(cut));
        lemma_varint_prefix(len as nat, cut, 10);
    } else {
        let part = payload.take(cut - prefix.len());
        assert(head =~= prefix + part);
        lemma_dec_u64(len, part);
    }
}

/// Writing one more record adds its frame at the end of the log.
pub proof fn lemma_log_push(records: Seq<DataView>, d: DataView)
    ensures
        enc_log(records.push(d)) == enc_log(records) + enc_frame(d),
    decreases records.len(),
{
    if records.len() == 0 {
        let rest = records.push(d).skip(1);
        assert(rest.len() == 0);
        assert(enc_log(rest) == Seq::<u8>::empty());
        assert(enc_log(records) == Seq::<u8>::empty());
        assert(enc_frame(d) + Seq::<u8>::empty() =~= Seq::<u8>::empty() + enc_frame(d));
    } else {
        assert(records.push(d).skip(1) =~= records.skip(1).push(d));
        lemma_log_push(records.skip(1), d);
        lemma_join(enc_frame(records[0]), enc_log(records.skip(1)), enc_frame(d));
    }
}

/// Replaying a log and whatever follows it gives the log's records first,
/// then what replaying the rest gives.
pub proof fn lemma_replay_log(records: Seq<DataView>, rest: Seq<u8>)
    requires
        forall|i: int| 0 <= i < records.len() ==> storable(#[trigger] records[i]),
    ensures
        replay(enc_log(records) + rest) == (records + replay(rest).0, replay(rest).1),
    decreases records.len(),
{
    if records.len() == 0 {
        assert(enc_log(records) + rest =~= rest);
        assert(records + replay(rest).0 =~= replay(rest).0);
    } else {
        let others = records.skip(1);
        let tail = enc_log(others) + rest;
        lemma_join(enc_frame(records[0]), enc_log(others), rest);
        lemma_frame_roundtrip(records[0], tail);
        lemma_frame_progress(enc_frame(records[0]) + tail);
        assert forall|i: int| 0 <= i < others.len() implies storable(#[trigger] others[i]) by {
            assert(others[i] == records[i + 1]);
        }
        lemma_replay_log(others, rest);
        assert(seq![records[0]] + (others + replay(rest).0) =~= records + replay(rest).0);
    }
}

/// Round trip: replaying the log of any records gives those records back,
/// in order, and leaves nothing unread.
pub proof fn lemma_log_roundtrip(records: Seq<DataView>)
    requires
        forall|i: int| 0 <= i < records.len() ==> storable(#[trigger] records[i]),
    ensures
        replay(enc_log(records)) == (records, Seq::<u8>::empty()),
{
    lemma_replay_log(records, Seq::empty());
    assert(enc_log(records) + Seq::<u8>::empty() =~= enc_log(records));
    assert(records + Seq::<DataView>::empty() =~= records);
}

/// Truncation: a log that ends inside a frame replays to the records before
/// that frame and stops there with bytes left over, so that reading it to
/// the end fails instead of coming up short.
pub proof fn lemma_log_truncated(records: Seq<DataView>, last: DataView, cut: int)
    requires
        forall|i: int| 0 <= i < records.len() ==> storable(#[trigger] records[i]),
        storable(last),
        0 < cut < enc_frame(last).len(),
    ensures
        replay(enc_log(records) + enc_frame(last).take(cut)) == (
            records,
            enc_frame(last).take(cut),
        ),
        enc_frame(last).take(cut).len() > 0,
{
    let part = enc_frame(last).take(cut);
    lemma_frame_truncated(last, cut);
    lemma_replay_log(records, part);
    assert(records + Seq::<DataView>::empty() =~= records);
}

/// Flushing is idempotent: a second flush with nothing written in between
/// hands out no bytes and changes nothing, and no flush changes what the log
/// holds or what is left to read.
pub proof fn lemma_flush_idempotent(store: StoreView)
    ensures
        store.after_flush().written() == store.written(),
        store.after_flush().unread == store.unread,
        store.after_flush().buffered == Seq::<u8>::empty(),
        store.after_flush().after_flush() == store.after_flush(),
{
    let once = store.after_flush();
    assert(once.durable + once.buffered =~= once.durable);
    assert(once.after_flush().buffered =~= once.buffered);
}

/// A store that holds the log of `records` holds, after one more write, the
/// log of `records` and the record written, whether or not it was flushed
/// in between.
pub proof fn lemma_write_extends_log(store: StoreView, records: Seq<DataView>, d: DataView)
    requires
        store.written() == enc_log(records),
    ensures
        store.after_write(d).written() == enc_log(records.push(d)),
        store.after_flush().after_write(d).written() == enc_log(records.push(d)),
{
    lemma_log_push(records, d);
    lemma_join(store.durable, store.buffered, enc_frame(d));
    lemma_flush_idempotent(store);
    let flushed = store.after_flush();
    lemma_join(flushed.durable, flushed.buffered, enc_frame(d));
}

} // verus!
