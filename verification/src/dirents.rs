//! Directory records as the kernel packs them into a caller's buffer.

use vstd::prelude::*;

use crate::bytes::push_bytes;
use crate::fd_table;
use crate::fd_table::DirEntryRaw;
use crate::fd_table::RawEntry;

verus! {

/// Which call the records are for.
#[derive(Debug, Clone, Copy, PartialEq, Eq, Structural)]
pub enum Layout {
    /// Linux `getdents64`: inode, position of the next entry, record length,
    /// type, name; aligned to eight bytes.
    Getdents64,
    /// macOS `getdirentries`: inode, seek offset, record length, name length,
    /// type, name; aligned to four bytes.
    Getdirentries,
}

/// `n` in `width` bytes, least significant first.
pub open spec fn little_endian(n: nat, width: nat) -> Seq<u8>
    decreases width,
{
    if width == 0 {
        Seq::empty()
    } else {
        seq![(n % 256) as u8] + little_endian(n / 256, (width - 1) as nat)
    }
}

/// `n` zero bytes.
pub open spec fn zeros(n: int) -> Seq<u8> {
    Seq::new(n as nat, |i: int| 0u8)
}

/// The bytes before the name.
pub open spec fn header_len(layout: Layout) -> int {
    match layout {
        Layout::Getdents64 => 19,
        Layout::Getdirentries => 21,
    }
}

/// What record lengths are multiples of.
pub open spec fn alignment(layout: Layout) -> int {
    match layout {
        Layout::Getdents64 => 8,
        Layout::Getdirentries => 4,
    }
}

/// The length of a record: header, name and terminator, rounded up.
pub open spec fn record_len(layout: Layout, name_len: int) -> int {
    let bare = header_len(layout) + name_len + 1;
    let align = alignment(layout);
    if bare % align == 0 {
        bare
    } else {
        bare + align - bare % align
    }
}

/// The record of the entry at position `index`.
pub open spec fn record(layout: Layout, entry: RawEntry, index: int) -> Seq<u8> {
    let len = record_len(layout, entry.name.len() as int);
    let length_fields = match layout {
        Layout::Getdents64 => little_endian(len as nat, 2),
        Layout::Getdirentries => little_endian(len as nat, 2) + little_endian(
            entry.name.len(),
            2,
        ),
    };
    little_endian(entry.d_ino as nat, 8) + little_endian((index + 1) as nat, 8) + length_fields
        + seq![entry.d_type] + entry.name + zeros(len - header_len(layout) - entry.name.len())
}

/// The records of the entries `from`, `from + 1`, up to but not including
/// `to`.
pub open spec fn records(layout: Layout, entries: Seq<RawEntry>, from: int, to: int) -> Seq<u8>
    decreases to - from,
{
    if from >= to {
        Seq::empty()
    } else {
        records(layout, entries, from, to - 1) + record(layout, entries[to - 1], to - 1)
    }
}

proof fn lemma_little_endian_len(n: nat, width: nat)
    ensures
        little_endian(n, width).len() == width,
    decreases width,
{
    if width > 0 {
        lemma_little_endian_len(n / 256, (width - 1) as nat);
    }
}

/// A record has the length that it states.
pub proof fn lemma_record_len(layout: Layout, entry: RawEntry, index: int)
    requires
        0 <= index,
    ensures
        record(layout, entry, index).len() == record_len(layout, entry.name.len() as int),
        record_len(layout, entry.name.len() as int) % alignment(layout) == 0,
        record_len(layout, entry.name.len() as int) > header_len(layout) + entry.name.len(),
{
    let len = record_len(layout, entry.name.len() as int);
    lemma_little_endian_len(entry.d_ino as nat, 8);
    lemma_little_endian_len((index + 1) as nat, 8);
    lemma_little_endian_len(len as nat, 2);
    lemma_little_endian_len(entry.name.len(), 2);
}

/// Appends `n` in `width` bytes, least significant first.
fn push_little_endian(out: &mut Vec<u8>, n: u64, width: usize)
    ensures
        final(out)@ == old(out)@ + little_endian(n as nat, width as nat),
    decreases width,
{
    if width > 0 {
        out.push((n % 256) as u8);
        push_little_endian(out, n / 256, width - 1);
        assert(out@ =~= old(out)@ + little_endian(n as nat, width as nat));
    } else {
        assert(out@ =~= old(out)@ + little_endian(n as nat, 0));
    }
}

/// Appends `n` zero bytes.
fn push_zeros(out: &mut Vec<u8>, n: usize)
    ensures
        final(out)@ == old(out)@ + zeros(n as int),
{
    let mut i: usize = 0;
    while i < n
        invariant
            0 <= i <= n,
            out@ == old(out)@ + zeros(i as int),
        decreases n - i,
    {
        out.push(0);
        i = i + 1;
        assert(out@ =~= old(out)@ + zeros(i as int));
    }
    assert(zeros(0) =~= Seq::<u8>::empty());
    assert(out@ =~= old(out)@ + zeros(n as int));
}

/// The length of a record that fits `room`, else `None`.
fn fitting_len(layout: Layout, name_len: usize, room: usize) -> (r: Option<usize>)
    ensures
        match r {
            Some(len) => len == record_len(layout, name_len as int) && len <= room,
            None => record_len(layout, name_len as int) > room,
        },
{
    let header: usize = match layout {
        Layout::Getdents64 => 19,
        Layout::Getdirentries => 21,
    };
    let align: usize = match layout {
        Layout::Getdents64 => 8,
        Layout::Getdirentries => 4,
    };
    if room < header + 1 || name_len > room - (header + 1) {
        return None;
    }
    let bare: usize = header + 1 + name_len;
    let over: usize = bare % align;
    let padding: usize = if over == 0 {
        0
    } else {
        align - over
    };
    if padding > room - bare {
        return None;
    }
    Some(bare + padding)
}

/// Appends the record of the entry at position `at`, which is `len` long.
fn push_record(out: &mut Vec<u8>, layout: Layout, entry: &DirEntryRaw, at: usize, len: usize)
    requires
        at < usize::MAX,
        len == record_len(layout, entry.name@.len() as int),
    ensures
        final(out)@ == old(out)@ + record(layout, entry@, at as int),
{
    push_little_endian(out, entry.d_ino, 8);
    push_little_endian(out, at as u64 + 1, 8);
    push_little_endian(out, len as u64, 2);
    let header: usize = match layout {
        Layout::Getdents64 => 19,
        Layout::Getdirentries => {
            push_little_endian(out, entry.name.len() as u64, 2);
            21
        },
    };
    out.push(entry.d_type);
    push_bytes(out, entry.name.as_slice());
    push_zeros(out, len - header - entry.name.len());
    assert(out@ =~= old(out)@ + record(layout, entry@, at as int));
}

/// Packs as many records as fit `buf_size` bytes, from the entry at `offset`
/// on. Returns the bytes and the position of the first entry left out.
fn pack_entries(layout: Layout, buf_size: usize, entries: &Vec<DirEntryRaw>, offset: usize) -> (r: (
    Vec<u8>,
    usize,
))
    ensures
        packs(layout, buf_size as int, fd_table::raw_entries(entries@), offset as int, r.0@, r.1 as int),
{
    let ghost all = fd_table::raw_entries(entries@);
    let mut out: Vec<u8> = Vec::new();
    let mut at: usize = offset;
    assert(out@ =~= records(layout, all, offset as int, offset as int));
    while at < entries.len()
        invariant_except_break
            offset <= at,
            at <= entries@.len() || at == offset,
            all == fd_table::raw_entries(entries@),
            out@ == records(layout, all, offset as int, at as int),
            out@.len() <= buf_size,
        ensures
            packs(layout, buf_size as int, all, offset as int, out@, at as int),
        decreases entries@.len() - at,
    {
        let entry = &entries[at];
        proof {
            assert(all[at as int] == entry@);
            lemma_record_len(layout, entry@, at as int);
        }
        let len: usize = match fitting_len(layout, entry.name.len(), buf_size - out.len()) {
            Some(len) => len,
            None => {
                break;
            },
        };
        push_record(&mut out, layout, entry, at, len);
        at = at + 1;
    }
    (out, at)
}

/// What a packed buffer holds: the records of the entries from `offset` up to
/// `next`, as many as fit.
pub open spec fn packs(
    layout: Layout,
    buf_size: int,
    entries: Seq<RawEntry>,
    offset: int,
    out: Seq<u8>,
    next: int,
) -> bool {
    &&& offset <= next
    &&& out == records(layout, entries, offset, next)
    &&& out.len() <= buf_size
    &&& next > offset ==> next <= entries.len()
    &&& next < entries.len() ==> out.len() + record(layout, entries[next], next).len() > buf_size
}

/// Packs `getdents64` records into at most `buf_size` bytes, from the entry at
/// `offset` on. Returns the bytes and the next position.
pub fn pack_getdents64(buf_size: usize, entries: &Vec<DirEntryRaw>, offset: usize) -> (r: (
    Vec<u8>,
    usize,
))
    ensures
        packs(
            Layout::Getdents64,
            buf_size as int,
            fd_table::raw_entries(entries@),
            offset as int,
            r.0@,
            r.1 as int,
        ),
{
    pack_entries(Layout::Getdents64, buf_size, entries, offset)
}

/// Packs `getdirentries` records into at most `buf_size` bytes, from the entry
/// at `offset` on. Returns the bytes and the next position, which is also the
/// base position that the caller may ask for.
pub fn pack_getdirentries(buf_size: usize, entries: &Vec<DirEntryRaw>, offset: usize) -> (r: (
    Vec<u8>,
    usize,
))
    ensures
        packs(
            Layout::Getdirentries,
            buf_size as int,
            fd_table::raw_entries(entries@),
            offset as int,
            r.0@,
            r.1 as int,
        ),
{
    pack_entries(Layout::Getdirentries, buf_size, entries, offset)
}

proof fn lemma_records_append(layout: Layout, entries: Seq<RawEntry>, from: int, mid: int, to: int)
    requires
        from <= mid <= to,
    ensures
        records(layout, entries, from, mid) + records(layout, entries, mid, to) == records(
            layout,
            entries,
            from,
            to,
        ),
    decreases to - mid,
{
    if mid == to {
        assert(records(layout, entries, from, mid) + records(layout, entries, mid, to) =~= records(
            layout,
            entries,
            from,
            to,
        ));
    } else {
        lemma_records_append(layout, entries, from, mid, to - 1);
        assert(records(layout, entries, from, mid) + records(layout, entries, mid, to) =~= records(
            layout,
            entries,
            from,
            to - 1,
        ) + record(layout, entries[to - 1], to - 1));
    }
}

/// A listing read in two calls is the listing read in one: nothing is lost or
/// repeated where the first buffer was full.
pub proof fn law_reading_resumes_where_it_stopped(
    layout: Layout,
    entries: Seq<RawEntry>,
    offset: int,
    first_size: int,
    first: Seq<u8>,
    middle: int,
    second_size: int,
    second: Seq<u8>,
    end: int,
)
    requires
        packs(layout, first_size, entries, offset, first, middle),
        packs(layout, second_size, entries, middle, second, end),
    ensures
        first + second == records(layout, entries, offset, end),
{
    lemma_records_append(layout, entries, offset, middle, end);
}

/// What a packed buffer holds is decided by the entries, the position and the
/// size of the buffer.
pub proof fn law_packing_is_determined(
    layout: Layout,
    buf_size: int,
    entries: Seq<RawEntry>,
    offset: int,
    one: Seq<u8>,
    one_next: int,
    two: Seq<u8>,
    two_next: int,
)
    requires
        0 <= offset,
        packs(layout, buf_size, entries, offset, one, one_next),
        packs(layout, buf_size, entries, offset, two, two_next),
    ensures
        one == two,
        one_next == two_next,
{
    if one_next < two_next {
        lemma_records_append(layout, entries, offset, one_next + 1, two_next);
        lemma_records_append(layout, entries, offset, one_next, one_next + 1);
        assert(records(layout, entries, one_next, one_next + 1) =~= record(
            layout,
            entries[one_next],
            one_next,
        ));
    } else if two_next < one_next {
        lemma_records_append(layout, entries, offset, two_next + 1, one_next);
        lemma_records_append(layout, entries, offset, two_next, two_next + 1);
        assert(records(layout, entries, two_next, two_next + 1) =~= record(
            layout,
            entries[two_next],
            two_next,
        ));
    }
}

// ── Reading records back ────────────────────────────────────────────────

/// The number that bytes stand for, least significant first.
pub open spec fn value_of(bytes: Seq<u8>) -> nat
    decreases bytes.len(),
{
    if bytes.len() == 0 {
        0
    } else {
        bytes[0] as nat + 256 * value_of(bytes.drop_first())
    }
}

/// 256 to the power of `width`.
pub open spec fn capacity(width: nat) -> nat
    decreases width,
{
    if width == 0 {
        1
    } else {
        256 * capacity((width - 1) as nat)
    }
}

/// A number that fits is read back from its bytes.
pub proof fn law_little_endian_reads_back(n: nat, width: nat)
    requires
        n < capacity(width),
    ensures
        little_endian(n, width).len() == width,
        value_of(little_endian(n, width)) == n,
    decreases width,
{
    if width > 0 {
        let rest = little_endian(n / 256, (width - 1) as nat);
        law_little_endian_reads_back(n / 256, (width - 1) as nat);
        assert(little_endian(n, width).drop_first() =~= rest);
    }
}

proof fn lemma_capacities()
    ensures
        capacity(2) == 65536,
        capacity(8) == 0x1_0000_0000_0000_0000,
{
    assert(capacity(0) == 1);
    assert(capacity(1) == 256);
    assert(capacity(2) == 65536);
    assert(capacity(3) == 256 * 65536);
    assert(capacity(4) == 65536 * 65536);
    assert(capacity(5) == 256 * 65536 * 65536);
    assert(capacity(6) == 65536 * 65536 * 65536);
    assert(capacity(7) == 256 * 65536 * 65536 * 65536);
}

/// Where a caller finds the name in a record.
pub open spec fn name_at(layout: Layout) -> int {
    match layout {
        Layout::Getdents64 => 19,
        Layout::Getdirentries => 21,
    }
}

/// The bytes up to the first zero byte.
pub open spec fn c_string(bytes: Seq<u8>) -> Seq<u8>
    decreases bytes.len(),
{
    if bytes.len() == 0 || bytes[0] == 0 {
        Seq::empty()
    } else {
        seq![bytes[0]] + c_string(bytes.drop_first())
    }
}

proof fn lemma_c_string(name: Seq<u8>, rest: Seq<u8>)
    requires
        !name.contains(0),
        rest.len() > 0,
        rest[0] == 0,
    ensures
        c_string(name + rest) == name,
    decreases name.len(),
{
    if name.len() == 0 {
        assert(name + rest =~= rest);
    } else {
        assert(name[0] != 0);
        assert((name + rest).drop_first() =~= name.drop_first() + rest);
        assert forall|i: int| 0 <= i < name.drop_first().len() implies name.drop_first()[i] != 0 by {
            assert(name[i + 1] != 0);
        }
        lemma_c_string(name.drop_first(), rest);
        assert(seq![name[0]] + name.drop_first() =~= name);
    }
}

/// What a caller reads at the start of a buffer: the length of the record, and
/// the entry.
pub open spec fn first_record(layout: Layout, buffer: Seq<u8>) -> (nat, RawEntry) {
    let len = value_of(buffer.subrange(16, 18));
    (
        len,
        RawEntry {
            name: c_string(buffer.subrange(name_at(layout), len as int)),
            d_ino: value_of(buffer.subrange(0, 8)) as u64,
            d_type: buffer[name_at(layout) - 1],
        },
    )
}

/// The entries that a caller reads from a buffer, one record after the other.
pub open spec fn read_back(layout: Layout, buffer: Seq<u8>) -> Seq<RawEntry>
    decreases buffer.len(),
{
    let (len, entry) = first_record(layout, buffer);
    if buffer.len() < name_at(layout) || len == 0 || len > buffer.len() {
        Seq::empty()
    } else {
        seq![entry] + read_back(layout, buffer.subrange(len as int, buffer.len() as int))
    }
}

/// What a caller finds in the record of an entry, whatever follows it: the
/// length by which it goes on to the next record, the inode, the position of the
/// next entry, the type, and the name up to its terminator. The length of a
/// record is what keeps the next one aligned.
pub proof fn law_a_record_is_read_back(layout: Layout, entry: RawEntry, index: int, rest: Seq<u8>)
    requires
        0 <= index < u64::MAX,
        !entry.name.contains(0),
        entry.name.len() < 65000,
    ensures
        ({
            let bytes = record(layout, entry, index);
            &&& first_record(layout, bytes + rest) == (bytes.len(), entry)
            &&& value_of((bytes + rest).subrange(8, 16)) == index + 1
            &&& layout == Layout::Getdirentries ==> value_of((bytes + rest).subrange(18, 20))
                == entry.name.len()
            &&& bytes.len() % (match layout {
                Layout::Getdents64 => 8nat,
                Layout::Getdirentries => 4nat,
            }) == 0
            &&& bytes.len() > name_at(layout) + entry.name.len()
            &&& bytes.len() <= name_at(layout) + entry.name.len() + 8
        }),
{
    lemma_record_len(layout, entry, index);
    lemma_capacities();
    let len = record_len(layout, entry.name.len() as int);
    law_little_endian_reads_back(entry.d_ino as nat, 8);
    law_little_endian_reads_back((index + 1) as nat, 8);
    law_little_endian_reads_back(len as nat, 2);
    law_little_endian_reads_back(entry.name.len(), 2);
    let bytes = record(layout, entry, index);
    let all = bytes + rest;
    let pad = zeros(len - header_len(layout) - entry.name.len());
    assert(all.subrange(0, 8) =~= little_endian(entry.d_ino as nat, 8));
    assert(all.subrange(8, 16) =~= little_endian((index + 1) as nat, 8));
    assert(all.subrange(16, 18) =~= little_endian(len as nat, 2));
    if layout == Layout::Getdirentries {
        assert(all.subrange(18, 20) =~= little_endian(entry.name.len(), 2));
    }
    assert(all.subrange(name_at(layout), len) =~= entry.name + pad);
    assert(pad[0] == 0);
    lemma_c_string(entry.name, pad);
}

proof fn lemma_records_front(layout: Layout, entries: Seq<RawEntry>, from: int, to: int)
    requires
        from < to,
    ensures
        records(layout, entries, from, to) == record(layout, entries[from], from) + records(
            layout,
            entries,
            from + 1,
            to,
        ),
{
    lemma_records_append(layout, entries, from, from + 1, to);
    assert(records(layout, entries, from, from) =~= Seq::<u8>::empty());
    assert(records(layout, entries, from, from + 1) =~= record(layout, entries[from], from));
}

proof fn lemma_records_read_back(layout: Layout, entries: Seq<RawEntry>, from: int, to: int)
    requires
        0 <= from <= to <= entries.len(),
        entries.len() < u64::MAX,
        forall|i: int|
            0 <= i < entries.len() ==> !(#[trigger] entries[i]).name.contains(0)
                && entries[i].name.len() < 65000,
    ensures
        read_back(layout, records(layout, entries, from, to)) == entries.subrange(from, to),
    decreases to - from,
{
    let buffer = records(layout, entries, from, to);
    if from < to {
        let rest = records(layout, entries, from + 1, to);
        lemma_records_front(layout, entries, from, to);
        law_a_record_is_read_back(layout, entries[from], from, rest);
        lemma_records_read_back(layout, entries, from + 1, to);
        let bytes = record(layout, entries[from], from);
        assert(buffer.subrange(bytes.len() as int, buffer.len() as int) =~= rest);
        assert(seq![entries[from]] + entries.subrange(from + 1, to) =~= entries.subrange(from, to));
    } else {
        assert(buffer =~= Seq::<u8>::empty());
        assert(read_back(layout, buffer) =~= Seq::<RawEntry>::empty());
    }
}

/// A caller that reads a packed buffer finds the entries from the position on,
/// in order, each with its own name, type and inode, none left out and none
/// twice; and the next position is that of the first entry it has not seen.
/// Nothing is left for the next buffer where everything fitted.
pub proof fn law_a_packed_buffer_lists_the_entries(
    layout: Layout,
    buf_size: int,
    entries: Seq<RawEntry>,
    offset: int,
    out: Seq<u8>,
    next: int,
)
    requires
        packs(layout, buf_size, entries, offset, out, next),
        0 <= offset <= entries.len(),
        entries.len() < u64::MAX,
        forall|i: int|
            0 <= i < entries.len() ==> !(#[trigger] entries[i]).name.contains(0)
                && entries[i].name.len() < 65000,
    ensures
        offset <= next <= entries.len(),
        read_back(layout, out) == entries.subrange(offset, next),
        out.len() <= buf_size,
        next < entries.len() ==> out.len() + name_at(layout) + entries[next].name.len() + 8
            >= buf_size,
        offset < entries.len() && buf_size >= name_at(layout) + entries[offset].name.len() + 8
            ==> next > offset,
{
    lemma_records_read_back(layout, entries, offset, next);
    if next < entries.len() {
        law_a_record_is_read_back(layout, entries[next], next, Seq::empty());
    }
    if offset < entries.len() && next == offset {
        assert(out =~= Seq::<u8>::empty());
        law_a_record_is_read_back(layout, entries[offset], offset, Seq::empty());
    }
}

} // verus!
