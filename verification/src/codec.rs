//! The wire layout of one snapshot.
//!
//! A snapshot is laid out field by field, in declaration order. A counter is
//! a base-128 integer. An optional counter is a tag byte, `0` for absent and
//! `1` for present, followed by the counter where it is present. An interface
//! name is its length in bytes and then its UTF-8 text. The interface table is
//! its row count and then its rows.
//!
//! For each part there is one spec function that says how it is written
//! (`enc_*`) and one that says how it is read (`dec_*`). A reader takes bytes
//! off the front of a sequence and gives back the part and what is left.

use crate::buffer::{contents, scratch_as_slice, scratch_extend, scratch_new, scratch_push, Scratch};
use crate::data::{
    distinct_names, lemma_position_of, position_of, CpuTime, CpuUsage, Data, DataView, Io, Memory,
    NetIo, NetIoTable,
};
use crate::varint::{
    decode_var, encode_var, lemma_varint_decode_bound, lemma_varint_len_u64,
    lemma_varint_roundtrip, varint_bytes, varint_decode,
};
use vstd::prelude::*;
use vstd::slice::{slice_subrange, slice_to_vec};
use vstd::utf8::*;

verus! {

/// What is left of the input after a successful read.
pub open spec fn after<T>(read: Option<(T, Seq<u8>)>) -> Seq<u8> {
    match read {
        Some((_, rest)) => rest,
        None => Seq::empty(),
    }
}

/// The part that a successful read gave.
pub open spec fn got<T>(read: Option<(T, Seq<u8>)>) -> T {
    read.unwrap().0
}

/// The bytes of a counter.
pub open spec fn enc_u64(v: u64) -> Seq<u8> {
    varint_bytes(v as nat)
}

/// The counter at the front of `s`.
pub open spec fn dec_u64(s: Seq<u8>) -> Option<(u64, Seq<u8>)> {
    match varint_decode(s) {
        Some((v, taken)) => Some((v, s.skip(taken as int))),
        None => None,
    }
}

/// The bytes of an optional counter.
pub open spec fn enc_opt(o: Option<u64>) -> Seq<u8> {
    match o {
        None => seq![0u8],
        Some(v) => seq![1u8] + enc_u64(v),
    }
}

/// The optional counter at the front of `s`. A tag other than `0` and `1`
/// cannot be read.
pub open spec fn dec_opt(s: Seq<u8>) -> Option<(Option<u64>, Seq<u8>)> {
    if s.len() == 0 {
        None
    } else if s[0] == 0 {
        Some((None, s.skip(1)))
    } else if s[0] == 1 {
        match dec_u64(s.skip(1)) {
            Some((v, rest)) => Some((Some(v), rest)),
            None => None,
        }
    } else {
        None
    }
}

/// The bytes of a memory record.
pub open spec fn enc_memory(m: Memory) -> Seq<u8> {
    enc_u64(m.rss) + enc_u64(m.vms) + enc_opt(m.shared) + enc_opt(m.text) + enc_opt(m.data)
}

/// The memory record at the front of `s`.
pub open spec fn dec_memory(s: Seq<u8>) -> Option<(Memory, Seq<u8>)> {
    let rss = dec_u64(s);
    let vms = dec_u64(after(rss));
    let shared = dec_opt(after(vms));
    let text = dec_opt(after(shared));
    let data = dec_opt(after(text));
    if rss is Some && vms is Some && shared is Some && text is Some && data is Some {
        Some(
            (
                Memory {
                    rss: got(rss),
                    vms: got(vms),
                    shared: got(shared),
                    text: got(text),
                    data: got(data),
                },
                after(data),
            ),
        )
    } else {
        None
    }
}

/// The bytes of a CPU-time record.
pub open spec fn enc_cpu_time(t: CpuTime) -> Seq<u8> {
    enc_u64(t.user) + enc_u64(t.system)
}

/// The CPU-time record at the front of `s`.
pub open spec fn dec_cpu_time(s: Seq<u8>) -> Option<(CpuTime, Seq<u8>)> {
    let user = dec_u64(s);
    let system = dec_u64(after(user));
    if user is Some && system is Some {
        Some((CpuTime { user: got(user), system: got(system) }, after(system)))
    } else {
        None
    }
}

/// The bytes of an I/O record.
pub open spec fn enc_io(io: Io) -> Seq<u8> {
    enc_u64(io.bytes_written) + enc_u64(io.bytes_read) + enc_opt(io.disk_written) + enc_opt(
        io.disk_read,
    ) + enc_opt(io.syscall_written) + enc_opt(io.syscall_read)
}

/// The I/O record at the front of `s`.
pub open spec fn dec_io(s: Seq<u8>) -> Option<(Io, Seq<u8>)> {
    let bytes_written = dec_u64(s);
    let bytes_read = dec_u64(after(bytes_written));
    let disk_written = dec_opt(after(bytes_read));
    let disk_read = dec_opt(after(disk_written));
    let syscall_written = dec_opt(after(disk_read));
    let syscall_read = dec_opt(after(syscall_written));
    if bytes_written is Some && bytes_read is Some && disk_written is Some && disk_read is Some
        && syscall_written is Some && syscall_read is Some {
        Some(
            (
                Io {
                    bytes_written: got(bytes_written),
                    bytes_read: got(bytes_read),
                    disk_written: got(disk_written),
                    disk_read: got(disk_read),
                    syscall_written: got(syscall_written),
                    syscall_read: got(syscall_read),
                },
                after(syscall_read),
            ),
        )
    } else {
        None
    }
}

/// The bytes of the counters of one interface.
pub open spec fn enc_net_io(n: NetIo) -> Seq<u8> {
    enc_u64(n.bytes_sent) + enc_u64(n.bytes_recv) + enc_u64(n.packets_sent) + enc_u64(
        n.packets_recv,
    ) + enc_u64(n.errors_sent) + enc_u64(n.errors_recv) + enc_u64(n.drop_recv) + enc_u64(
        n.drop_sent,
    )
}

/// The counters of one interface at the front of `s`.
pub open spec fn dec_net_io(s: Seq<u8>) -> Option<(NetIo, Seq<u8>)> {
    let bytes_sent = dec_u64(s);
    let bytes_recv = dec_u64(after(bytes_sent));
    let packets_sent = dec_u64(after(bytes_recv));
    let packets_recv = dec_u64(after(packets_sent));
    let errors_sent = dec_u64(after(packets_recv));
    let errors_recv = dec_u64(after(errors_sent));
    let drop_recv = dec_u64(after(errors_recv));
    let drop_sent = dec_u64(after(drop_recv));
    if bytes_sent is Some && bytes_recv is Some && packets_sent is Some && packets_recv is Some
        && errors_sent is Some && errors_recv is Some && drop_recv is Some && drop_sent is Some {
        Some(
            (
                NetIo {
                    bytes_sent: got(bytes_sent),
                    bytes_recv: got(bytes_recv),
                    packets_sent: got(packets_sent),
                    packets_recv: got(packets_recv),
                    errors_sent: got(errors_sent),
                    errors_recv: got(errors_recv),
                    drop_recv: got(drop_recv),
                    drop_sent: got(drop_sent),
                },
                after(drop_sent),
            ),
        )
    } else {
        None
    }
}

/// The bytes of an interface name.
pub open spec fn enc_name(name: Seq<char>) -> Seq<u8> {
    enc_u64(encode_utf8(name).len() as u64) + encode_utf8(name)
}

/// The interface name at the front of `s`. There is none where fewer bytes
/// follow the length than it says, or where they are not UTF-8.
pub open spec fn dec_name(s: Seq<u8>) -> Option<(Seq<char>, Seq<u8>)> {
    match dec_u64(s) {
        Some((len, rest)) => if len <= rest.len() && valid_utf8(rest.take(len as int)) {
            Some((decode_utf8(rest.take(len as int)), rest.skip(len as int)))
        } else {
            None
        },
        None => None,
    }
}

/// The bytes of one row of the interface table.
pub open spec fn enc_row(row: (Seq<char>, NetIo)) -> Seq<u8> {
    enc_name(row.0) + enc_net_io(row.1)
}

/// The row of the interface table at the front of `s`.
pub open spec fn dec_row(s: Seq<u8>) -> Option<((Seq<char>, NetIo), Seq<u8>)> {
    let name = dec_name(s);
    let counters = dec_net_io(after(name));
    if name is Some && counters is Some {
        Some(((got(name), got(counters)), after(counters)))
    } else {
        None
    }
}

/// The bytes of the rows of an interface table, one row after another.
pub open spec fn enc_rows(rows: Seq<(Seq<char>, NetIo)>) -> Seq<u8>
    decreases rows.len(),
{
    if rows.len() == 0 {
        Seq::empty()
    } else {
        enc_row(rows[0]) + enc_rows(rows.skip(1))
    }
}

/// The `count` rows at the front of `s`.
pub open spec fn dec_rows(s: Seq<u8>, count: nat) -> Option<(Seq<(Seq<char>, NetIo)>, Seq<u8>)>
    decreases count,
{
    if count == 0 {
        Some((Seq::empty(), s))
    } else {
        match dec_row(s) {
            Some((row, rest)) => match dec_rows(rest, (count - 1) as nat) {
                Some((rows, end)) => Some((seq![row] + rows, end)),
                None => None,
            },
            None => None,
        }
    }
}

/// The bytes of a snapshot.
#[verifier::opaque]
pub open spec fn enc_data(d: DataView) -> Seq<u8> {
    enc_memory(d.memory) + enc_cpu_time(d.cpu_time) + enc_u64(d.cpu_usage.0) + enc_io(d.io)
        + enc_u64(d.net_io.len() as u64) + enc_rows(d.net_io)
}

/// The snapshot that `s` holds. There is none where a part cannot be read,
/// where bytes are left over after the last row, or where two rows of the
/// interface table share a name.
#[verifier::opaque]
pub open spec fn dec_data(s: Seq<u8>) -> Option<DataView> {
    let memory = dec_memory(s);
    let cpu_time = dec_cpu_time(after(memory));
    let cpu_usage = dec_u64(after(cpu_time));
    let io = dec_io(after(cpu_usage));
    let count = dec_u64(after(io));
    let rows = dec_rows(after(count), got(count) as nat);
    if memory is Some && cpu_time is Some && cpu_usage is Some && io is Some && count is Some
        && rows is Some && after(rows).len() == 0 && distinct_names(got(rows)) {
        Some(
            DataView {
                memory: got(memory),
                cpu_time: got(cpu_time),
                cpu_usage: CpuUsage(got(cpu_usage)),
                io: got(io),
                net_io: got(rows),
            },
        )
    } else {
        None
    }
}

/// A snapshot that the wire layout can carry: its table has distinct names,
/// and its lengths fit the length fields.
pub open spec fn encodable(d: DataView) -> bool {
    &&& distinct_names(d.net_io)
    &&& d.net_io.len() <= u64::MAX
    &&& forall|i: int| 0 <= i < d.net_io.len() ==> encode_utf8(#[trigger] d.net_io[i].0).len() <= u64::MAX
}

/// Joining byte sequences does not depend on how the joins are grouped.
pub proof fn lemma_join(a: Seq<u8>, b: Seq<u8>, c: Seq<u8>)
    ensures
        (a + b) + c == a + (b + c),
{
    assert((a + b) + c =~= a + (b + c));
}

/// A counter is read back from its bytes, whatever follows them.
pub proof fn lemma_dec_u64(v: u64, rest: Seq<u8>)
    ensures
        dec_u64(enc_u64(v) + rest) == Some((v, rest)),
{
    lemma_varint_roundtrip(v, rest);
    lemma_varint_len_u64(v);
    assert((enc_u64(v) + rest).skip(enc_u64(v).len() as int) =~= rest);
}

/// An optional counter is read back from its bytes, whatever follows them.
pub proof fn lemma_dec_opt(o: Option<u64>, rest: Seq<u8>)
    ensures
        dec_opt(enc_opt(o) + rest) == Some((o, rest)),
{
    let all = enc_opt(o) + rest;
    match o {
        None => {
            assert(all[0] == 0);
            assert(all.skip(1) =~= rest);
        },
        Some(v) => {
            assert(all[0] == 1);
            assert(all.skip(1) =~= enc_u64(v) + rest);
            lemma_dec_u64(v, rest);
        },
    }
}

/// A memory record is read back from its bytes, whatever follows them.
pub proof fn lemma_dec_memory(m: Memory, rest: Seq<u8>)
    ensures
        dec_memory(enc_memory(m) + rest) == Some((m, rest)),
{
    let a = enc_u64(m.rss);
    let b = enc_u64(m.vms);
    let c = enc_opt(m.shared);
    let d = enc_opt(m.text);
    let e = enc_opt(m.data);
    let r4 = e + rest;
    let r3 = d + r4;
    let r2 = c + r3;
    let r1 = b + r2;
    lemma_join(a + b + c + d, e, rest);
    lemma_join(a + b + c, d, r4);
    lemma_join(a + b, c, r3);
    lemma_join(a, b, r2);
    assert(enc_memory(m) + rest == a + r1);
    lemma_dec_u64(m.rss, r1);
    lemma_dec_u64(m.vms, r2);
    lemma_dec_opt(m.shared, r3);
    lemma_dec_opt(m.text, r4);
    lemma_dec_opt(m.data, rest);
}

/// A CPU-time record is read back from its bytes, whatever follows them.
pub proof fn lemma_dec_cpu_time(t: CpuTime, rest: Seq<u8>)
    ensures
        dec_cpu_time(enc_cpu_time(t) + rest) == Some((t, rest)),
{
    let r1 = enc_u64(t.system) + rest;
    lemma_join(enc_u64(t.user), enc_u64(t.system), rest);
    lemma_dec_u64(t.user, r1);
    lemma_dec_u64(t.system, rest);
}

/// An I/O record is read back from its bytes, whatever follows them.
pub proof fn lemma_dec_io(io: Io, rest: Seq<u8>)
    ensures
        dec_io(enc_io(io) + rest) == Some((io, rest)),
{
    let a = enc_u64(io.bytes_written);
    let b = enc_u64(io.bytes_read);
    let c = enc_opt(io.disk_written);
    let d = enc_opt(io.disk_read);
    let e = enc_opt(io.syscall_written);
    let f = enc_opt(io.syscall_read);
    let r5 = f + rest;
    let r4 = e + r5;
    let r3 = d + r4;
    let r2 = c + r3;
    let r1 = b + r2;
    lemma_join(a + b + c + d + e, f, rest);
    lemma_join(a + b + c + d, e, r5);
    lemma_join(a + b + c, d, r4);
    lemma_join(a + b, c, r3);
    lemma_join(a, b, r2);
    assert(enc_io(io) + rest == a + r1);
    lemma_dec_u64(io.bytes_written, r1);
    lemma_dec_u64(io.bytes_read, r2);
    lemma_dec_opt(io.disk_written, r3);
    lemma_dec_opt(io.disk_read, r4);
    lemma_dec_opt(io.syscall_written, r5);
    lemma_dec_opt(io.syscall_read, rest);
}

/// An interface's counters are read back from their bytes, whatever follows
/// them.
pub proof fn lemma_dec_net_io(n: NetIo, rest: Seq<u8>)
    ensures
        dec_net_io(enc_net_io(n) + rest) == Some((n, rest)),
{
    let a = enc_u64(n.bytes_sent);
    let b = enc_u64(n.bytes_recv);
    let c = enc_u64(n.packets_sent);
    let d = enc_u64(n.packets_recv);
    let e = enc_u64(n.errors_sent);
    let f = enc_u64(n.errors_recv);
    let g = enc_u64(n.drop_recv);
    let h = enc_u64(n.drop_sent);
    let r7 = h + rest;
    let r6 = g + r7;
    let r5 = f + r6;
    let r4 = e + r5;
    let r3 = d + r4;
    let r2 = c + r3;
    let r1 = b + r2;
    lemma_join(a + b + c + d + e + f + g, h, rest);
    lemma_join(a + b + c + d + e + f, g, r7);
    lemma_join(a + b + c + d + e, f, r6);
    lemma_join(a + b + c + d, e, r5);
    lemma_join(a + b + c, d, r4);
    lemma_join(a + b, c, r3);
    lemma_join(a, b, r2);
    assert(enc_net_io(n) + rest == a + r1);
    lemma_dec_u64(n.bytes_sent, r1);
    lemma_dec_u64(n.bytes_recv, r2);
    lemma_dec_u64(n.packets_sent, r3);
    lemma_dec_u64(n.packets_recv, r4);
    lemma_dec_u64(n.errors_sent, r5);
    lemma_dec_u64(n.errors_recv, r6);
    lemma_dec_u64(n.drop_recv, r7);
    lemma_dec_u64(n.drop_sent, rest);
}

/// An interface name is read back from its bytes, whatever follows them.
pub proof fn lemma_dec_name(name: Seq<char>, rest: Seq<u8>)
    requires
        encode_utf8(name).len() <= u64::MAX,
    ensures
        dec_name(enc_name(name) + rest) == Some((name, rest)),
{
    let text = encode_utf8(name);
    let r1 = text + rest;
    lemma_join(enc_u64(text.len() as u64), text, rest);
    lemma_dec_u64(text.len() as u64, r1);
    assert(r1.take(text.len() as int) =~= text);
    assert(r1.skip(text.len() as int) =~= rest);
    encode_utf8_valid_utf8(name);
    encode_utf8_decode_utf8(name);
}

/// A table row is read back from its bytes, whatever follows them.
pub proof fn lemma_dec_row(row: (Seq<char>, NetIo), rest: Seq<u8>)
    requires
        encode_utf8(row.0).len() <= u64::MAX,
    ensures
        dec_row(enc_row(row) + rest) == Some((row, rest)),
{
    let r1 = enc_net_io(row.1) + rest;
    lemma_join(enc_name(row.0), enc_net_io(row.1), rest);
    lemma_dec_name(row.0, r1);
    lemma_dec_net_io(row.1, rest);
}

/// The rows of a table are read back from their bytes, whatever follows
/// them.
pub proof fn lemma_dec_rows(rows: Seq<(Seq<char>, NetIo)>, rest: Seq<u8>)
    requires
        forall|i: int| 0 <= i < rows.len() ==> encode_utf8(#[trigger] rows[i].0).len() <= u64::MAX,
    ensures
        dec_rows(enc_rows(rows) + rest, rows.len()) == Some((rows, rest)),
    decreases rows.len(),
{
    if rows.len() == 0 {
        assert(enc_rows(rows) + rest =~= rest);
        assert(rows =~= Seq::empty());
    } else {
        let tail = rows.skip(1);
        let r1 = enc_rows(tail) + rest;
        lemma_join(enc_row(rows[0]), enc_rows(tail), rest);
        lemma_dec_row(rows[0], r1);
        assert forall|i: int| 0 <= i < tail.len() implies encode_utf8(
            #[trigger] tail[i].0,
        ).len() <= u64::MAX by {
            assert(tail[i] == rows[i + 1]);
        }
        lemma_dec_rows(tail, rest);
        assert(seq![rows[0]] + tail =~= rows);
    }
}

/// Reading undoes writing: the bytes of a snapshot hold that snapshot.
pub proof fn lemma_dec_data(d: DataView)
    requires
        encodable(d),
    ensures
        dec_data(enc_data(d)) == Some(d),
{
    reveal(enc_data);
    reveal(dec_data);
    let a = enc_memory(d.memory);
    let b = enc_cpu_time(d.cpu_time);
    let c = enc_u64(d.cpu_usage.0);
    let e = enc_io(d.io);
    let f = enc_u64(d.net_io.len() as u64);
    let r5 = enc_rows(d.net_io);
    let r4 = f + r5;
    let r3 = e + r4;
    let r2 = c + r3;
    let r1 = b + r2;
    lemma_join(a + b + c + e, f, r5);
    lemma_join(a + b + c, e, r4);
    lemma_join(a + b, c, r3);
    lemma_join(a, b, r2);
    assert(enc_data(d) == a + r1);
    lemma_dec_memory(d.memory, r1);
    lemma_dec_cpu_time(d.cpu_time, r2);
    lemma_dec_u64(d.cpu_usage.0, r3);
    lemma_dec_io(d.io, r4);
    lemma_dec_u64(d.net_io.len() as u64, r5);
    assert(r5 =~= r5 + Seq::<u8>::empty());
    lemma_dec_rows(d.net_io, Seq::empty());
}

/// `read` is what a reader that finds `expected` at some place in `input`
/// hands back: the same part, and the position in `input` where the rest
/// begins.
pub open spec fn reads<T>(
    read: Option<(T, usize)>,
    input: Seq<u8>,
    expected: Option<(T, Seq<u8>)>,
) -> bool {
    match expected {
        Some((part, rest)) => {
            &&& read is Some
            &&& read.unwrap().0 == part
            &&& read.unwrap().1 <= input.len()
            &&& input.skip(read.unwrap().1 as int) == rest
        },
        None => read is None,
    }
}

/// Calls `core::str::from_utf8`. The contract claims that it accepts exactly
/// the well-formed UTF-8 byte strings, and that the text it returns is the
/// one those bytes spell.
#[verifier::external_body]
fn utf8_text(bytes: &[u8]) -> (text: Option<&str>)
    ensures
        text is Some <==> valid_utf8(bytes@),
        text is Some ==> text.unwrap()@ == decode_utf8(bytes@),
{
    match core::str::from_utf8(bytes) {
        Ok(text) => Some(text),
        Err(_) => None,
    }
}

/// Reads the counter at `pos`.
pub(crate) fn take_u64(input: &[u8], pos: usize) -> (read: Option<(u64, usize)>)
    requires
        pos <= input@.len(),
    ensures
        reads(read, input@, dec_u64(input@.skip(pos as int))),
        read is Some ==> read.unwrap().1 > pos,
{
    let tail = slice_subrange(input, pos, input.len());
    proof {
        assert(tail@ =~= input@.skip(pos as int));
        lemma_varint_decode_bound(tail@);
    }
    match decode_var(tail) {
        Some((value, taken)) => {
            assert(input@.skip(pos as int).skip(taken as int) =~= input@.skip(pos + taken));
            Some((value, pos + taken))
        },
        None => None,
    }
}

/// Reads the optional counter at `pos`.
fn take_opt(input: &[u8], pos: usize) -> (read: Option<(Option<u64>, usize)>)
    requires
        pos <= input@.len(),
    ensures
        reads(read, input@, dec_opt(input@.skip(pos as int))),
        read is Some ==> read.unwrap().1 > pos,
{
    if pos >= input.len() {
        return None;
    }
    let tag = input[pos];
    assert(input@.skip(pos as int)[0] == tag);
    assert(input@.skip(pos as int).skip(1) =~= input@.skip(pos + 1));
    if tag == 0 {
        Some((None, pos + 1))
    } else if tag == 1 {
        match take_u64(input, pos + 1) {
            Some((value, next)) => Some((Some(value), next)),
            None => None,
        }
    } else {
        None
    }
}

/// Reads the memory record at `pos`.
fn take_memory(input: &[u8], pos: usize) -> (read: Option<(Memory, usize)>)
    requires
        pos <= input@.len(),
    ensures
        reads(read, input@, dec_memory(input@.skip(pos as int))),
        read is Some ==> read.unwrap().1 > pos,
{
    let (rss, pos) = take_u64(input, pos)?;
    let (vms, pos) = take_u64(input, pos)?;
    let (shared, pos) = take_opt(input, pos)?;
    let (text, pos) = take_opt(input, pos)?;
    let (data, pos) = take_opt(input, pos)?;
    Some((Memory { rss, vms, shared, text, data }, pos))
}

/// Reads the CPU-time record at `pos`.
fn take_cpu_time(input: &[u8], pos: usize) -> (read: Option<(CpuTime, usize)>)
    requires
        pos <= input@.len(),
    ensures
        reads(read, input@, dec_cpu_time(input@.skip(pos as int))),
        read is Some ==> read.unwrap().1 > pos,
{
    let (user, pos) = take_u64(input, pos)?;
    let (system, pos) = take_u64(input, pos)?;
    Some((CpuTime { user, system }, pos))
}

/// Reads the I/O record at `pos`.
fn take_io(input: &[u8], pos: usize) -> (read: Option<(Io, usize)>)
    requires
        pos <= input@.len(),
    ensures
        reads(read, input@, dec_io(input@.skip(pos as int))),
        read is Some ==> read.unwrap().1 > pos,
{
    let (bytes_written, pos) = take_u64(input, pos)?;
    let (bytes_read, pos) = take_u64(input, pos)?;
    let (disk_written, pos) = take_opt(input, pos)?;
    let (disk_read, pos) = take_opt(input, pos)?;
    let (syscall_written, pos) = take_opt(input, pos)?;
    let (syscall_read, pos) = take_opt(input, pos)?;
    Some(
        (
            Io { bytes_written, bytes_read, disk_written, disk_read, syscall_written, syscall_read },
            pos,
        ),
    )
}

/// Reads the counters of one interface at `pos`.
fn take_net_io(input: &[u8], pos: usize) -> (read: Option<(NetIo, usize)>)
    requires
        pos <= input@.len(),
    ensures
        reads(read, input@, dec_net_io(input@.skip(pos as int))),
        read is Some ==> read.unwrap().1 > pos,
{
    let (bytes_sent, pos) = take_u64(input, pos)?;
    let (bytes_recv, pos) = take_u64(input, pos)?;
    let (packets_sent, pos) = take_u64(input, pos)?;
    let (packets_recv, pos) = take_u64(input, pos)?;
    let (errors_sent, pos) = take_u64(input, pos)?;
    let (errors_recv, pos) = take_u64(input, pos)?;
    let (drop_recv, pos) = take_u64(input, pos)?;
    let (drop_sent, pos) = take_u64(input, pos)?;
    Some(
        (
            NetIo {
                bytes_sent,
                bytes_recv,
                packets_sent,
                packets_recv,
                errors_sent,
                errors_recv,
                drop_recv,
                drop_sent,
            },
            pos,
        ),
    )
}

/// Reads the interface name at `pos`.
fn take_name(input: &[u8], pos: usize) -> (read: Option<(String, usize)>)
    requires
        pos <= input@.len(),
    ensures
        match dec_name(input@.skip(pos as int)) {
            Some((name, rest)) => {
                &&& read is Some
                &&& read.unwrap().0@ == name
                &&& pos < read.unwrap().1 <= input@.len()
                &&& input@.skip(read.unwrap().1 as int) == rest
            },
            None => read is None,
        },
{
    let (len, start) = take_u64(input, pos)?;
    if len > (input.len() - start) as u64 {
        return None;
    }
    let end = start + len as usize;
    let raw = slice_subrange(input, start, end);
    proof {
        assert(raw@ =~= input@.skip(start as int).take(len as int));
        assert(input@.skip(start as int).skip(len as int) =~= input@.skip(end as int));
    }
    match utf8_text(raw) {
        Some(text) => Some((text.to_owned(), end)),
        None => None,
    }
}

/// Reading `count` rows is reading one row and then the others.
proof fn lemma_dec_rows_first(s: Seq<u8>, count: nat)
    requires
        count > 0,
    ensures
        dec_rows(s, count) == match dec_row(s) {
            Some((row, rest)) => match dec_rows(rest, (count - 1) as nat) {
                Some((rows, end)) => Some((seq![row] + rows, end)),
                None => None,
            },
            None => None,
        },
{
}

/// Reads the table row at `pos`.
fn take_row(input: &[u8], pos: usize) -> (read: Option<(String, NetIo, usize)>)
    requires
        pos <= input@.len(),
    ensures
        match dec_row(input@.skip(pos as int)) {
            Some((row, rest)) => {
                &&& read is Some
                &&& (read.unwrap().0@, read.unwrap().1) == row
                &&& pos < read.unwrap().2 <= input@.len()
                &&& input@.skip(read.unwrap().2 as int) == rest
            },
            None => read is None,
        },
{
    let (name, next) = take_name(input, pos)?;
    let (counters, next) = take_net_io(input, next)?;
    Some((name, counters, next))
}

/// Rows that repeat a name among the first rows, or between these and the
/// next one, do not have distinct names.
proof fn lemma_repeated_name(
    before: Seq<(Seq<char>, NetIo)>,
    row: (Seq<char>, NetIo),
    others: Seq<(Seq<char>, NetIo)>,
)
    requires
        position_of(before, row.0) is Some,
    ensures
        !distinct_names(before + (seq![row] + others)),
{
    lemma_position_of(before, row.0);
    let i = position_of(before, row.0).unwrap();
    let all = before + (seq![row] + others);
    assert(all[i] == before[i]);
    assert(all[before.len() as int] == row);
}

/// Reads the `count` rows of an interface table. Fails where a row cannot be
/// read and where a name comes twice.
fn take_rows(input: &[u8], pos: usize, count: u64) -> (read: Option<(NetIoTable, usize)>)
    requires
        pos <= input@.len(),
    ensures
        match dec_rows(input@.skip(pos as int), count as nat) {
            Some((rows, rest)) => if distinct_names(rows) {
                &&& read is Some
                &&& read.unwrap().0@ == rows
                &&& read.unwrap().1 <= input@.len()
                &&& input@.skip(read.unwrap().1 as int) == rest
            } else {
                read is None
            },
            None => read is None,
        },
{
    let ghost whole = dec_rows(input@.skip(pos as int), count as nat);
    let mut table = NetIoTable::new();
    let mut at: usize = pos;
    let mut done: u64 = 0;
    assert(Seq::<(Seq<char>, NetIo)>::empty() + got(whole) =~= got(whole));
    while done < count
        invariant
            done <= count,
            at <= input@.len(),
            distinct_names(table@),
            whole == dec_rows(input@.skip(pos as int), count as nat),
            whole == match dec_rows(input@.skip(at as int), (count - done) as nat) {
                Some((rows, rest)) => Some((table@ + rows, rest)),
                None => None,
            },
        decreases count - done,
    {
        let ghost before = table@;
        let ghost left = dec_rows(input@.skip(at as int), (count - done) as nat);
        proof {
            lemma_dec_rows_first(input@.skip(at as int), (count - done) as nat);
        }
        let (name, counters, next) = match take_row(input, at) {
            Some(read) => read,
            None => {
                assert(left is None);
                return None;
            },
        };
        let ghost others = dec_rows(input@.skip(next as int), (count - done - 1) as nat);
        if table.get(name.as_str()).is_some() {
            proof {
                if others is Some {
                    lemma_repeated_name(before, (name@, counters), got(others));
                }
            }
            return None;
        }
        table.insert(name, counters);
        proof {
            if others is Some {
                assert(before + (seq![(name@, counters)] + got(others)) =~= before.push(
                    (name@, counters),
                ) + got(others));
            }
        }
        at = next;
        done += 1;
    }
    proof {
        assert(table@ + Seq::<(Seq<char>, NetIo)>::empty() =~= table@);
    }
    Some((table, at))
}

/// Reads a snapshot from `bytes`. There is none to read where `bytes` is
/// not the whole of a well-formed snapshot.
pub fn decode(bytes: &[u8]) -> (data: Option<Data>)
    ensures
        match dec_data(bytes@) {
            Some(d) => data is Some && data.unwrap()@ == d,
            None => data is None,
        },
{
    proof {
        reveal(dec_data);
        assert(bytes@.skip(0) =~= bytes@);
    }
    let (memory, pos) = take_memory(bytes, 0)?;
    let (cpu_time, pos) = take_cpu_time(bytes, pos)?;
    let (cpu_usage, pos) = take_u64(bytes, pos)?;
    let (io, pos) = take_io(bytes, pos)?;
    let (count, pos) = take_u64(bytes, pos)?;
    let (net_io, pos) = take_rows(bytes, pos, count)?;
    if pos != bytes.len() {
        return None;
    }
    Some(Data { memory, cpu_time, cpu_usage: CpuUsage(cpu_usage), io, net_io })
}

/// Adds the bytes of a counter.
fn put_u64(buf: &mut Scratch, v: u64)
    ensures
        contents(*final(buf)) == contents(*old(buf)) + enc_u64(v),
{
    let bytes = encode_var(v);
    scratch_extend(buf, bytes.as_slice());
}

/// Adds the bytes of an optional counter.
fn put_opt(buf: &mut Scratch, o: Option<u64>)
    ensures
        contents(*final(buf)) == contents(*old(buf)) + enc_opt(o),
{
    let ghost base = contents(*buf);
    match o {
        None => {
            scratch_push(buf, 0);
            assert(base.push(0u8) =~= base + seq![0u8]);
        },
        Some(v) => {
            scratch_push(buf, 1);
            put_u64(buf, v);
            assert(base.push(1u8) + enc_u64(v) =~= base + (seq![1u8] + enc_u64(v)));
        },
    }
}

/// Adds the bytes of a memory record.
fn put_memory(buf: &mut Scratch, m: &Memory)
    ensures
        contents(*final(buf)) == contents(*old(buf)) + enc_memory(*m),
{
    let ghost base = contents(*buf);
    put_u64(buf, m.rss);
    put_u64(buf, m.vms);
    put_opt(buf, m.shared);
    put_opt(buf, m.text);
    put_opt(buf, m.data);
    proof {
        let a = enc_u64(m.rss);
        let b = enc_u64(m.vms);
        let c = enc_opt(m.shared);
        let d = enc_opt(m.text);
        let e = enc_opt(m.data);
        lemma_join(base, a, b);
        lemma_join(base, a + b, c);
        lemma_join(base, a + b + c, d);
        lemma_join(base, a + b + c + d, e);
    }
}

/// Adds the bytes of a CPU-time record.
fn put_cpu_time(buf: &mut Scratch, t: &CpuTime)
    ensures
        contents(*final(buf)) == contents(*old(buf)) + enc_cpu_time(*t),
{
    let ghost base = contents(*buf);
    put_u64(buf, t.user);
    put_u64(buf, t.system);
    proof {
        lemma_join(base, enc_u64(t.user), enc_u64(t.system));
    }
}

/// Adds the bytes of an I/O record.
fn put_io(buf: &mut Scratch, io: &Io)
    ensures
        contents(*final(buf)) == contents(*old(buf)) + enc_io(*io),
{
    let ghost base = contents(*buf);
    put_u64(buf, io.bytes_written);
    put_u64(buf, io.bytes_read);
    put_opt(buf, io.disk_written);
    put_opt(buf, io.disk_read);
    put_opt(buf, io.syscall_written);
    put_opt(buf, io.syscall_read);
    proof {
        let a = enc_u64(io.bytes_written);
        let b = enc_u64(io.bytes_read);
        let c = enc_opt(io.disk_written);
        let d = enc_opt(io.disk_read);
        let e = enc_opt(io.syscall_written);
        let f = enc_opt(io.syscall_read);
        lemma_join(base, a, b);
        lemma_join(base, a + b, c);
        lemma_join(base, a + b + c, d);
        lemma_join(base, a + b + c + d, e);
        lemma_join(base, a + b + c + d + e, f);
    }
}

/// Adds the bytes of the counters of one interface.
fn put_net_io(buf: &mut Scratch, n: &NetIo)
    ensures
        contents(*final(buf)) == contents(*old(buf)) + enc_net_io(*n),
{
    let ghost base = contents(*buf);
    put_u64(buf, n.bytes_sent);
    put_u64(buf, n.bytes_recv);
    put_u64(buf, n.packets_sent);
    put_u64(buf, n.packets_recv);
    put_u64(buf, n.errors_sent);
    put_u64(buf, n.errors_recv);
    put_u64(buf, n.drop_recv);
    put_u64(buf, n.drop_sent);
    proof {
        let a = enc_u64(n.bytes_sent);
        let b = enc_u64(n.bytes_recv);
        let c = enc_u64(n.packets_sent);
        let d = enc_u64(n.packets_recv);
        let e = enc_u64(n.errors_sent);
        let f = enc_u64(n.errors_recv);
        let g = enc_u64(n.drop_recv);
        let h = enc_u64(n.drop_sent);
        lemma_join(base, a, b);
        lemma_join(base, a + b, c);
        lemma_join(base, a + b + c, d);
        lemma_join(base, a + b + c + d, e);
        lemma_join(base, a + b + c + d + e, f);
        lemma_join(base, a + b + c + d + e + f, g);
        lemma_join(base, a + b + c + d + e + f + g, h);
    }
}

/// Adds the bytes of an interface name.
fn put_name(buf: &mut Scratch, name: &str)
    ensures
        contents(*final(buf)) == contents(*old(buf)) + enc_name(name@),
        encode_utf8(name@).len() <= u64::MAX,
{
    let ghost base = contents(*buf);
    let text = name.as_bytes();
    put_u64(buf, text.len() as u64);
    scratch_extend(buf, text);
    proof {
        lemma_join(base, enc_u64(text@.len() as u64), text@);
    }
}

/// Writing one more row adds that row's bytes at the end.
proof fn lemma_enc_rows_push(rows: Seq<(Seq<char>, NetIo)>, row: (Seq<char>, NetIo))
    ensures
        enc_rows(rows.push(row)) == enc_rows(rows) + enc_row(row),
    decreases rows.len(),
{
    if rows.len() == 0 {
        let rest = rows.push(row).skip(1);
        assert(rest.len() == 0);
        assert(enc_rows(rest) == Seq::<u8>::empty());
        assert(enc_rows(rows) == Seq::<u8>::empty());
        assert(enc_row(row) + Seq::<u8>::empty() =~= Seq::<u8>::empty() + enc_row(row));
    } else {
        assert(rows.push(row).skip(1) =~= rows.skip(1).push(row));
        lemma_enc_rows_push(rows.skip(1), row);
        lemma_join(enc_row(rows[0]), enc_rows(rows.skip(1)), enc_row(row));
    }
}

/// Adds the bytes of the rows of `table`.
fn put_rows(buf: &mut Scratch, table: &NetIoTable)
    ensures
        contents(*final(buf)) == contents(*old(buf)) + enc_rows(table@),
        forall|k: int| 0 <= k < table@.len() ==> encode_utf8(#[trigger] table@[k].0).len() <= u64::MAX,
{
    let ghost base = contents(*buf);
    let count = table.len();
    let mut i: usize = 0;
    assert(base + enc_rows(table@.take(0)) =~= base);
    while i < count
        invariant
            i <= count,
            count == table@.len(),
            contents(*buf) == base + enc_rows(table@.take(i as int)),
            forall|k: int| 0 <= k < i ==> encode_utf8(#[trigger] table@[k].0).len() <= u64::MAX,
        decreases count - i,
    {
        let ghost sofar = table@.take(i as int);
        let row = table.entry(i);
        put_name(buf, row.name.as_str());
        put_net_io(buf, &row.counters);
        proof {
            assert(table@.take(i + 1) =~= sofar.push(table@[i as int]));
            lemma_enc_rows_push(sofar, table@[i as int]);
            lemma_join(base + enc_rows(sofar), enc_name(row.name@), enc_net_io(row.counters));
            lemma_join(base, enc_rows(sofar), enc_row(table@[i as int]));
        }
        i += 1;
    }
    assert(table@.take(count as int) =~= table@);
}

/// Adds the bytes of `data` at the end of `buf`.
pub(crate) fn encode_into(buf: &mut Scratch, data: &Data)
    ensures
        contents(*final(buf)) == contents(*old(buf)) + enc_data(data@),
        encodable(data@),
{
    let ghost base = contents(*buf);
    put_memory(buf, &data.memory);
    put_cpu_time(buf, &data.cpu_time);
    put_u64(buf, data.cpu_usage.0);
    put_io(buf, &data.io);
    let count = data.net_io.len();
    put_u64(buf, count as u64);
    put_rows(buf, &data.net_io);
    proof {
        reveal(enc_data);
        let a = enc_memory(data.memory);
        let b = enc_cpu_time(data.cpu_time);
        let c = enc_u64(data.cpu_usage.0);
        let d = enc_io(data.io);
        let e = enc_u64(count as u64);
        let f = enc_rows(data.net_io@);
        lemma_join(base, a, b);
        lemma_join(base, a + b, c);
        lemma_join(base, a + b + c, d);
        lemma_join(base, a + b + c + d, e);
        lemma_join(base, a + b + c + d + e, f);
    }
}

/// The bytes of `data`, in a vector of their own.
pub fn encode(data: &Data) -> (bytes: Vec<u8>)
    ensures
        bytes@ == enc_data(data@),
        dec_data(bytes@) == Some(data@),
{
    let mut buf = scratch_new();
    encode_into(&mut buf, data);
    proof {
        assert(Seq::<u8>::empty() + enc_data(data@) =~= enc_data(data@));
        lemma_dec_data(data@);
    }
    slice_to_vec(scratch_as_slice(&buf))
}

} // verus!
