//! Binary codec for the sound-label container.
//!
//! Layout, little-endian throughout: a 4-byte magic literal `SLI\0`, a
//! 32-bit `format_version` kept verbatim, a 32-bit record count, then
//! `count` fixed-size records of 16 bytes each (64-bit `tone_name`,
//! 32-bit `nus3bank_id`, 32-bit `tone_id`). The count is never stored in
//! the in-memory table: encoding always recomputes it from the record
//! sequence, so it cannot drift. Trailing bytes beyond the declared
//! records are ignored by decoding.

use vstd::prelude::*;

verus! {

/// One record of the table: a labeled tone binding. Identifiers may
/// repeat across records; duplicates are meaningful.
#[derive(Clone, Copy, Debug, PartialEq, Eq, Structural)]
pub struct Entry {
    /// 64-bit opaque identifier, usually the hash of a label.
    pub tone_name: u64,
    /// Sound-bank number, kept verbatim.
    pub nus3bank_id: u32,
    /// Tone number within the bank, freely mutable by callers.
    pub tone_id: u32,
}

/// Errors of the codec and of identifier-literal parsing.
#[derive(Debug, PartialEq, Eq)]
pub enum SliError {
    /// The first four bytes differ from the magic literal; carries the
    /// bytes actually found. Callers use this variant to tell "not this
    /// format" apart from "this format but corrupt".
    BadMagic { found: [u8; 4] },
    /// The input ends before a declared field or record is complete.
    UnexpectedEof,
    /// A `0x`-prefixed identifier literal is not a valid 64-bit
    /// hexadecimal number.
    InvalidIdentifierLiteral,
}

/// The fixed magic literal `SLI\0`.
pub open spec fn spec_magic() -> Seq<u8> {
    seq![0x53u8, 0x4cu8, 0x49u8, 0x00u8]
}

/// Little-endian bytes of a 32-bit value.
pub open spec fn spec_le32(v: u32) -> Seq<u8> {
    seq![
        (v & 0xff) as u8,
        ((v >> 8) & 0xff) as u8,
        ((v >> 16) & 0xff) as u8,
        ((v >> 24) & 0xff) as u8,
    ]
}

/// Little-endian bytes of a 64-bit value.
pub open spec fn spec_le64(v: u64) -> Seq<u8> {
    seq![
        (v & 0xff) as u8,
        ((v >> 8) & 0xff) as u8,
        ((v >> 16) & 0xff) as u8,
        ((v >> 24) & 0xff) as u8,
        ((v >> 32) & 0xff) as u8,
        ((v >> 40) & 0xff) as u8,
        ((v >> 48) & 0xff) as u8,
        ((v >> 56) & 0xff) as u8,
    ]
}

/// 32-bit value read from four little-endian bytes.
pub open spec fn u32_from_le(b0: u8, b1: u8, b2: u8, b3: u8) -> u32 {
    (b0 as u32) | ((b1 as u32) << 8) | ((b2 as u32) << 16) | ((b3 as u32) << 24)
}

/// 64-bit value read from eight little-endian bytes.
pub open spec fn u64_from_le(
    b0: u8,
    b1: u8,
    b2: u8,
    b3: u8,
    b4: u8,
    b5: u8,
    b6: u8,
    b7: u8,
) -> u64 {
    (b0 as u64) | ((b1 as u64) << 8) | ((b2 as u64) << 16) | ((b3 as u64) << 24) | ((b4
        as u64) << 32) | ((b5 as u64) << 40) | ((b6 as u64) << 48) | ((b7 as u64) << 56)
}

/// The 32-bit little-endian value at byte offset `off`.
pub open spec fn spec_u32_at(b: Seq<u8>, off: int) -> u32 {
    u32_from_le(b[off], b[off + 1], b[off + 2], b[off + 3])
}

/// The 64-bit little-endian value at byte offset `off`.
pub open spec fn spec_u64_at(b: Seq<u8>, off: int) -> u64 {
    u64_from_le(
        b[off],
        b[off + 1],
        b[off + 2],
        b[off + 3],
        b[off + 4],
        b[off + 5],
        b[off + 6],
        b[off + 7],
    )
}

/// The declared record count of a container: the 32-bit value at offset 8.
pub open spec fn spec_count(b: Seq<u8>) -> int {
    spec_u32_at(b, 8) as int
}

/// The record whose 16 bytes start at offset `off`.
pub open spec fn spec_entry_at(b: Seq<u8>, off: int) -> Entry {
    Entry {
        tone_name: spec_u64_at(b, off),
        nus3bank_id: spec_u32_at(b, off + 8),
        tone_id: spec_u32_at(b, off + 12),
    }
}

/// The input starts with the magic literal.
pub open spec fn magic_ok(b: Seq<u8>) -> bool {
    b.len() >= 4 && b.subrange(0, 4) == spec_magic()
}

/// The input is long enough to read the magic, yet does not start with it.
pub open spec fn magic_bad(b: Seq<u8>) -> bool {
    b.len() >= 4 && b.subrange(0, 4) != spec_magic()
}

/// The input decodes successfully: magic present, header complete, and
/// enough bytes for every declared record.
pub open spec fn spec_decodable(b: Seq<u8>) -> bool {
    magic_ok(b) && b.len() >= 12 && b.len() >= 12 + 16 * spec_count(b)
}

/// The record sequence a decodable input decodes to.
pub open spec fn spec_decoded_entries(b: Seq<u8>) -> Seq<Entry> {
    Seq::new(spec_count(b) as nat, |i: int| spec_entry_at(b, 12 + 16 * i))
}

/// The 16 bytes of one record.
pub open spec fn spec_entry_bytes(e: Entry) -> Seq<u8> {
    spec_le64(e.tone_name) + spec_le32(e.nus3bank_id) + spec_le32(e.tone_id)
}

/// The concatenated bytes of a record sequence.
pub open spec fn spec_entries_bytes(es: Seq<Entry>) -> Seq<u8>
    decreases es.len(),
{
    if es.len() == 0 {
        Seq::empty()
    } else {
        spec_entry_bytes(es[0]) + spec_entries_bytes(es.drop_first())
    }
}

/// The exact encoding of a table: magic, version, a count recomputed as
/// the length of the record sequence, then the records in order.
pub open spec fn spec_encode(version: u32, es: Seq<Entry>) -> Seq<u8> {
    spec_magic() + spec_le32(version) + spec_le32(es.len() as u32) + spec_entries_bytes(es)
}

/// The abstract value of a [`SliFile`]: its preserved format version and
/// its ordered record sequence.
pub struct SliView {
    pub version: u32,
    pub entries: Seq<Entry>,
}

/// An in-memory sound-label table: the preserved `format_version` and the
/// ordered sequence of records. Record order is significant and is kept
/// across decoding, edits and encoding. No record count is stored.
#[derive(Debug)]
pub struct SliFile {
    version: u32,
    entries: Vec<Entry>,
}

impl View for SliFile {
    type V = SliView;

    closed spec fn view(&self) -> SliView {
        SliView { version: self.version, entries: self.entries@ }
    }
}

impl SliFile {
    /// Build a table from a version and a record list.
    pub fn new(version: u32, entries: Vec<Entry>) -> (r: SliFile)
        ensures
            r@.version == version,
            r@.entries == entries@,
    {
        SliFile { version, entries }
    }

    /// The preserved `format_version` value.
    pub fn version(&self) -> (r: u32)
        ensures
            r == self@.version,
    {
        self.version
    }

    /// Read access to the records, in on-disk order.
    pub fn entries(&self) -> (r: &Vec<Entry>)
        ensures
            r@ == self@.entries,
    {
        &self.entries
    }

    /// Mutable access to the records. The version is untouched; the
    /// table's records afterwards are whatever the caller leaves in the
    /// returned vector.
    pub fn entries_mut(&mut self) -> (r: &mut Vec<Entry>)
        ensures
            r@ == old(self)@.entries,
            final(self)@.version == old(self)@.version,
            final(self)@.entries == final(r)@,
    {
        &mut self.entries
    }
}

/// Probe the leading bytes: `true` exactly when the input begins with the
/// binary container's magic literal. A cheap check that lets a caller
/// choose between binary decoding and a textual fallback without
/// treating a decode failure as control flow.
pub fn sniff(bytes: &[u8]) -> (r: bool)
    ensures
        r == magic_ok(bytes@),
{
    if bytes.len() < 4 {
        return false;
    }
    let r = bytes[0] == 0x53 && bytes[1] == 0x4c && bytes[2] == 0x49 && bytes[3] == 0x00;
    proof {
        if r {
            assert(bytes@.subrange(0, 4) =~= spec_magic());
        } else {
            assert(bytes@.subrange(0, 4) != spec_magic());
        }
    }
    r
}

/// Read the 32-bit little-endian value at `off`.
fn read_u32_le(b: &[u8], off: usize) -> (r: u32)
    requires
        off + 4 <= b@.len(),
    ensures
        r == spec_u32_at(b@, off as int),
{
    (b[off] as u32) | ((b[off + 1] as u32) << 8) | ((b[off + 2] as u32) << 16) | ((b[off + 3]
        as u32) << 24)
}

/// Read the 64-bit little-endian value at `off`.
fn read_u64_le(b: &[u8], off: usize) -> (r: u64)
    requires
        off + 8 <= b@.len(),
    ensures
        r == spec_u64_at(b@, off as int),
{
    (b[off] as u64) | ((b[off + 1] as u64) << 8) | ((b[off + 2] as u64) << 16) | ((b[off + 3]
        as u64) << 24) | ((b[off + 4] as u64) << 32) | ((b[off + 5] as u64) << 40) | ((b[off + 6]
        as u64) << 48) | ((b[off + 7] as u64) << 56)
}

/// Append the four little-endian bytes of `v`.
fn push_u32_le(out: &mut Vec<u8>, v: u32)
    ensures
        final(out)@ == old(out)@ + spec_le32(v),
{
    out.push((v & 0xff) as u8);
    out.push(((v >> 8) & 0xff) as u8);
    out.push(((v >> 16) & 0xff) as u8);
    out.push(((v >> 24) & 0xff) as u8);
    proof {
        assert(out@ =~= old(out)@ + spec_le32(v));
    }
}

/// Append the eight little-endian bytes of `v`.
fn push_u64_le(out: &mut Vec<u8>, v: u64)
    ensures
        final(out)@ == old(out)@ + spec_le64(v),
{
    out.push((v & 0xff) as u8);
    out.push(((v >> 8) & 0xff) as u8);
    out.push(((v >> 16) & 0xff) as u8);
    out.push(((v >> 24) & 0xff) as u8);
    out.push(((v >> 32) & 0xff) as u8);
    out.push(((v >> 40) & 0xff) as u8);
    out.push(((v >> 48) & 0xff) as u8);
    out.push(((v >> 56) & 0xff) as u8);
    proof {
        assert(out@ =~= old(out)@ + spec_le64(v));
    }
}

impl SliFile {
    /// Decode a binary container.
    ///
    /// Succeeds exactly on inputs that carry the magic literal, a full
    /// header, and all declared records; trailing bytes are ignored.
    /// Fails with `BadMagic` (carrying the four bytes found) exactly when
    /// the first four bytes differ from the magic, and with
    /// `UnexpectedEof` exactly when the input ends too early.
    pub fn decode(bytes: &[u8]) -> (r: Result<SliFile, SliError>)
        ensures
            r is Ok <==> spec_decodable(bytes@),
            r matches Ok(t) ==> t@.version == spec_u32_at(bytes@, 4) && t@.entries
                == spec_decoded_entries(bytes@),
            magic_bad(bytes@) <==> r matches Err(SliError::BadMagic { .. }),
            r matches Err(SliError::BadMagic { found }) ==> found@ == bytes@.subrange(0, 4),
            (bytes@.len() < 4 || (magic_ok(bytes@) && !spec_decodable(bytes@))) <==> r
                == Err::<SliFile, SliError>(SliError::UnexpectedEof),
    {
        if bytes.len() < 4 {
            return Err(SliError::UnexpectedEof);
        }
        let found = [bytes[0], bytes[1], bytes[2], bytes[3]];
        if bytes[0] != 0x53 || bytes[1] != 0x4c || bytes[2] != 0x49 || bytes[3] != 0x00 {
            proof {
                assert(found@ =~= bytes@.subrange(0, 4));
                assert(bytes@.subrange(0, 4) != spec_magic());
            }
            return Err(SliError::BadMagic { found });
        }
        proof {
            assert(bytes@.subrange(0, 4) =~= spec_magic());
        }
        if bytes.len() < 12 {
            return Err(SliError::UnexpectedEof);
        }
        let version = read_u32_le(bytes, 4);
        let count = read_u32_le(bytes, 8);
        let needed: u64 = 12 + 16 * (count as u64);
        if (bytes.len() as u64) < needed {
            return Err(SliError::UnexpectedEof);
        }
        let count = count as usize;
        let len = bytes.len();
        let mut entries: Vec<Entry> = Vec::new();
        let mut i: usize = 0;
        while i < count
            invariant
                i <= count,
                count == spec_count(bytes@),
                len == bytes@.len(),
                12 + 16 * count <= len,
                entries@ =~= Seq::new(i as nat, |j: int| spec_entry_at(bytes@, 12 + 16 * j)),
            decreases count - i,
        {
            let off = 12 + 16 * i;
            let tone_name = read_u64_le(bytes, off);
            let nus3bank_id = read_u32_le(bytes, off + 8);
            let tone_id = read_u32_le(bytes, off + 12);
            entries.push(Entry { tone_name, nus3bank_id, tone_id });
            i = i + 1;
        }
        proof {
            assert(entries@ =~= spec_decoded_entries(bytes@));
        }
        Ok(SliFile { version, entries })
    }

    /// Encode the table back to bytes: magic, version, a record count
    /// recomputed as the current number of records, then every record in
    /// order. Re-encoding an unmodified decoded table reproduces the
    /// decoded bytes exactly.
    pub fn encode(&self) -> (r: Vec<u8>)
        requires
            self@.entries.len() <= u32::MAX,
        ensures
            r@ == spec_encode(self@.version, self@.entries),
            r@.subrange(8, 12) == spec_le32(self@.entries.len() as u32),
            r@.len() == 12 + 16 * self@.entries.len(),
    {
        let mut out: Vec<u8> = Vec::new();
        out.push(0x53);
        out.push(0x4c);
        out.push(0x49);
        out.push(0x00);
        proof {
            assert(out@ =~= spec_magic());
        }
        push_u32_le(&mut out, self.version);
        let n = self.entries.len();
        push_u32_le(&mut out, n as u32);
        let ghost header = spec_magic() + spec_le32(self@.version) + spec_le32(
            self@.entries.len() as u32,
        );
        proof {
            assert(out@ =~= header);
        }
        let mut i: usize = 0;
        while i < n
            invariant
                i <= n,
                n == self@.entries.len(),
                self@.entries.len() <= u32::MAX,
                out@ =~= header + spec_entries_bytes(self@.entries.take(i as int)),
            decreases n - i,
        {
            let e = self.entries[i];
            push_u64_le(&mut out, e.tone_name);
            push_u32_le(&mut out, e.nus3bank_id);
            push_u32_le(&mut out, e.tone_id);
            proof {
                lemma_entries_bytes_snoc(self@.entries.take(i as int), self@.entries[i as int]);
                assert(self@.entries.take(i as int).push(self@.entries[i as int])
                    =~= self@.entries.take(i as int + 1));
            }
            i = i + 1;
        }
        proof {
            assert(self@.entries.take(n as int) =~= self@.entries);
            lemma_entries_bytes_len(self@.entries);
            assert(out@.subrange(8, 12) =~= spec_le32(self@.entries.len() as u32));
        }
        out
    }
}

/// Each record contributes exactly 16 bytes to the encoding.
proof fn lemma_entries_bytes_len(es: Seq<Entry>)
    ensures
        spec_entries_bytes(es).len() == 16 * es.len(),
    decreases es.len(),
{
    if es.len() > 0 {
        lemma_entries_bytes_len(es.drop_first());
    }
}

/// Writing back the 32-bit value read from four bytes yields those four
/// bytes again.
proof fn lemma_le32_inverse(b0: u8, b1: u8, b2: u8, b3: u8)
    ensures
        spec_le32(u32_from_le(b0, b1, b2, b3)) =~= seq![b0, b1, b2, b3],
{
    let x = u32_from_le(b0, b1, b2, b3);
    assert((x == (b0 as u32) | ((b1 as u32) << 8) | ((b2 as u32) << 16) | ((b3 as u32) << 24))
        ==> ((x & 0xff) as u8 == b0 && ((x >> 8) & 0xff) as u8 == b1 && ((x >> 16) & 0xff) as u8
        == b2 && ((x >> 24) & 0xff) as u8 == b3)) by (bit_vector);
}

/// Writing back the 64-bit value read from eight bytes yields those eight
/// bytes again.
proof fn lemma_le64_inverse(b0: u8, b1: u8, b2: u8, b3: u8, b4: u8, b5: u8, b6: u8, b7: u8)
    ensures
        spec_le64(u64_from_le(b0, b1, b2, b3, b4, b5, b6, b7)) =~= seq![b0, b1, b2, b3, b4, b5, b6, b7],
{
    let x = u64_from_le(b0, b1, b2, b3, b4, b5, b6, b7);
    assert((x == (b0 as u64) | ((b1 as u64) << 8) | ((b2 as u64) << 16) | ((b3 as u64) << 24) | ((
    b4 as u64) << 32) | ((b5 as u64) << 40) | ((b6 as u64) << 48) | ((b7 as u64) << 56)) ==> ((x
        & 0xff) as u8 == b0 && ((x >> 8) & 0xff) as u8 == b1 && ((x >> 16) & 0xff) as u8 == b2 && ((
    x >> 24) & 0xff) as u8 == b3 && ((x >> 32) & 0xff) as u8 == b4 && ((x >> 40) & 0xff) as u8 == b5
        && ((x >> 48) & 0xff) as u8 == b6 && ((x >> 56) & 0xff) as u8 == b7)) by (bit_vector);
}

/// Re-encoding the record read at `off` yields the input's 16 bytes at
/// `off` again.
proof fn lemma_entry_at_inverse(b: Seq<u8>, off: int)
    requires
        0 <= off,
        off + 16 <= b.len(),
    ensures
        spec_entry_bytes(spec_entry_at(b, off)) =~= b.subrange(off, off + 16),
{
    lemma_le64_inverse(
        b[off],
        b[off + 1],
        b[off + 2],
        b[off + 3],
        b[off + 4],
        b[off + 5],
        b[off + 6],
        b[off + 7],
    );
    lemma_le32_inverse(b[off + 8], b[off + 9], b[off + 10], b[off + 11]);
    lemma_le32_inverse(b[off + 12], b[off + 13], b[off + 14], b[off + 15]);
}

/// Re-encoding the `n` records read starting at offset 12 yields the
/// input's record bytes again.
proof fn lemma_entries_inverse(b: Seq<u8>, n: int)
    requires
        0 <= n,
        12 + 16 * n <= b.len(),
    ensures
        spec_entries_bytes(Seq::new(n as nat, |i: int| spec_entry_at(b, 12 + 16 * i)))
            =~= b.subrange(12, 12 + 16 * n),
    decreases n,
{
    if n == 0 {
    } else {
        let prefix = Seq::new((n - 1) as nat, |i: int| spec_entry_at(b, 12 + 16 * i));
        let last = spec_entry_at(b, 12 + 16 * (n - 1));
        assert(Seq::new(n as nat, |i: int| spec_entry_at(b, 12 + 16 * i)) =~= prefix.push(last));
        lemma_entries_inverse(b, n - 1);
        lemma_entries_bytes_snoc(prefix, last);
        lemma_entry_at_inverse(b, 12 + 16 * (n - 1));
        assert(spec_entries_bytes(prefix.push(last)) =~= b.subrange(12, 12 + 16 * n));
    }
}

/// Round-trip identity: encoding the version and records decoded from a
/// valid input reproduces, byte for byte, exactly the bytes the decoder
/// consumed (the whole input but for ignored trailing bytes).
pub proof fn lemma_round_trip(b: Seq<u8>)
    requires
        spec_decodable(b),
    ensures
        spec_encode(spec_u32_at(b, 4), spec_decoded_entries(b)) == b.subrange(
            0,
            12 + 16 * spec_count(b),
        ),
{
    let n = spec_count(b);
    lemma_le32_inverse(b[4], b[5], b[6], b[7]);
    lemma_le32_inverse(b[8], b[9], b[10], b[11]);
    lemma_entries_inverse(b, n);
    assert(spec_decoded_entries(b).len() as u32 == spec_u32_at(b, 8));
    assert(spec_magic() =~= b.subrange(0, 4));
    assert(spec_encode(spec_u32_at(b, 4), spec_decoded_entries(b)) =~= b.subrange(
        0,
        12 + 16 * spec_count(b),
    ));
}

/// Round-trip identity for inputs without trailing bytes: encoding what
/// was decoded reproduces the whole input.
pub proof fn lemma_round_trip_exact(b: Seq<u8>)
    requires
        spec_decodable(b),
        b.len() == 12 + 16 * spec_count(b),
    ensures
        spec_encode(spec_u32_at(b, 4), spec_decoded_entries(b)) == b,
{
    lemma_round_trip(b);
    assert(b.subrange(0, 12 + 16 * spec_count(b)) =~= b);
}

/// Appending one record to a sequence appends its 16 bytes to the
/// sequence's encoding.
proof fn lemma_entries_bytes_snoc(es: Seq<Entry>, e: Entry)
    ensures
        spec_entries_bytes(es.push(e)) == spec_entries_bytes(es) + spec_entry_bytes(e),
    decreases es.len(),
{
    if es.len() == 0 {
        assert(es.push(e)[0] == e);
        assert(es.push(e).drop_first() =~= Seq::<Entry>::empty());
        assert(spec_entries_bytes(es.push(e)) == spec_entry_bytes(e) + spec_entries_bytes(
            Seq::<Entry>::empty(),
        ));
        assert(spec_entry_bytes(e) + Seq::<u8>::empty() =~= spec_entries_bytes(es)
            + spec_entry_bytes(e));
    } else {
        assert(es.push(e)[0] == es[0]);
        assert(es.push(e).drop_first() =~= es.drop_first().push(e));
        lemma_entries_bytes_snoc(es.drop_first(), e);
        assert(spec_entries_bytes(es.push(e)) == spec_entry_bytes(es[0]) + (spec_entries_bytes(
            es.drop_first(),
        ) + spec_entry_bytes(e)));
        assert(spec_entry_bytes(es[0]) + (spec_entries_bytes(es.drop_first()) + spec_entry_bytes(e))
            =~= (spec_entry_bytes(es[0]) + spec_entries_bytes(es.drop_first())) + spec_entry_bytes(
            e,
        ));
    }
}

}
