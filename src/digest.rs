//! The canonical digest of a fee table.
//!
//! A merlin transcript is opened under the label `fee_map` and given, one
//! message at a time: an eight-byte little-endian header holding twice the
//! number of entries (one id and one fee per entry), then for each entry in
//! ascending order of token id the id as four little-endian bytes and the fee
//! as eight little-endian bytes. The transcript's 32 challenge bytes are the
//! digest, written out in lowercase hexadecimal.

use vstd::prelude::*;

verus! {

/// Entries of a fee table: (token id, fee) pairs.
pub type Entries = Seq<(u32, u64)>;

/// The longest message that a merlin transcript accepts.
pub const MAX_MESSAGE_LEN: u64 = 4294967295;

/// Token ids strictly increase along the sequence.
pub open spec fn keys_ascending(s: Entries) -> bool {
    forall|i: int, j: int| 0 <= i < j < s.len() ==> s[i].0 < s[j].0
}

/// Little-endian bytes of a 32-bit value.
pub open spec fn le_u32(x: u32) -> Seq<u8> {
    seq![
        (x & 0xff) as u8,
        ((x >> 8u32) & 0xff) as u8,
        ((x >> 16u32) & 0xff) as u8,
        ((x >> 24u32) & 0xff) as u8,
    ]
}

/// Little-endian bytes of a 64-bit value.
pub open spec fn le_u64(x: u64) -> Seq<u8> {
    seq![
        (x & 0xff) as u8,
        ((x >> 8u64) & 0xff) as u8,
        ((x >> 16u64) & 0xff) as u8,
        ((x >> 24u64) & 0xff) as u8,
        ((x >> 32u64) & 0xff) as u8,
        ((x >> 40u64) & 0xff) as u8,
        ((x >> 48u64) & 0xff) as u8,
        ((x >> 56u64) & 0xff) as u8,
    ]
}

/// The two messages of one entry: its id, then its fee.
pub open spec fn entry_messages(e: (u32, u64)) -> Seq<Seq<u8>> {
    seq![le_u32(e.0), le_u64(e.1)]
}

/// The messages of all entries, in sequence order.
pub open spec fn entries_messages(s: Entries) -> Seq<Seq<u8>>
    decreases s.len(),
{
    if s.len() == 0 {
        Seq::empty()
    } else {
        entries_messages(s.drop_last()) + entry_messages(s.last())
    }
}

/// The messages handed to the transcript for a sequence of entries.
pub open spec fn transcript_messages(s: Entries) -> Seq<Seq<u8>> {
    seq![le_u64((2 * s.len()) as u64)] + entries_messages(s)
}

/// Lowercase hexadecimal digit for a value below 16.
pub open spec fn hex_digit(n: int) -> char {
    seq!['0', '1', '2', '3', '4', '5', '6', '7', '8', '9', 'a', 'b', 'c', 'd', 'e', 'f'][n]
}

/// Lowercase hexadecimal text of a byte string, two digits per byte, high
/// nibble first.
pub open spec fn hex_lower(b: Seq<u8>) -> Seq<char> {
    Seq::new(
        2 * b.len(),
        |i: int|
            if i % 2 == 0 {
                hex_digit(b[i / 2] as int / 16)
            } else {
                hex_digit(b[i / 2] as int % 16)
            },
    )
}

/// The 32 challenge bytes of a merlin transcript opened under the label
/// `fee_map` that received `messages`, in order, each under the label
/// `entry`.
pub uninterp spec fn transcript_digest(messages: Seq<Seq<u8>>) -> Seq<u8>;

/// The digest text of a sorted sequence of entries.
pub open spec fn digest_text(s: Entries) -> Seq<char> {
    hex_lower(transcript_digest(transcript_messages(s)))
}

#[verifier::external_type_specification]
#[verifier::external_body]
pub struct ExTranscript(merlin::Transcript);

/// A merlin transcript together with a record of the messages it received.
struct FeeTranscript {
    inner: merlin::Transcript,
    fed: Ghost<Seq<Seq<u8>>>,
}

impl FeeTranscript {
    /// Relies on merlin::Transcript::new: a fresh transcript under a fixed
    /// label, which has received no message.
    #[verifier::external_body]
    fn new() -> (r: FeeTranscript)
        ensures
            r.fed@ == Seq::<Seq<u8>>::empty(),
    {
        FeeTranscript { inner: merlin::Transcript::new(b"fee_map"), fed: Ghost(Seq::empty()) }
    }

    /// Relies on merlin::Transcript::append_message: the message is added
    /// after those already received. It panics on a message longer than
    /// `u32::MAX` bytes.
    #[verifier::external_body]
    fn append(&mut self, message: &[u8])
        requires
            message@.len() <= MAX_MESSAGE_LEN,
        ensures
            final(self).fed@ == old(self).fed@.push(message@),
    {
        self.inner.append_message(b"entry", message);
    }

    /// Relies on merlin::Transcript::challenge_bytes: the 32 bytes depend only
    /// on the messages received, in order.
    #[verifier::external_body]
    fn challenge(t: FeeTranscript) -> (r: [u8; 32])
        ensures
            r@ == transcript_digest(t.fed@),
    {
        let mut inner = t.inner;
        let mut out = [0u8; 32];
        inner.challenge_bytes(b"digest", &mut out);
        out
    }
}

/// Relies on hex::encode: two lowercase digits per byte, high nibble first.
#[verifier::external_body]
fn hex_encode(bytes: &[u8]) -> (r: String)
    ensures
        r@ == hex_lower(bytes@),
{
    hex::encode(bytes)
}

fn push_u32(out: &mut Vec<u8>, x: u32)
    ensures
        final(out)@ == old(out)@ + le_u32(x),
{
    out.push((x & 0xff) as u8);
    out.push(((x >> 8u32) & 0xff) as u8);
    out.push(((x >> 16u32) & 0xff) as u8);
    out.push(((x >> 24u32) & 0xff) as u8);
    assert(final(out)@ =~= old(out)@ + le_u32(x));
}

fn push_u64(out: &mut Vec<u8>, x: u64)
    ensures
        final(out)@ == old(out)@ + le_u64(x),
{
    out.push((x & 0xff) as u8);
    out.push(((x >> 8u64) & 0xff) as u8);
    out.push(((x >> 16u64) & 0xff) as u8);
    out.push(((x >> 24u64) & 0xff) as u8);
    out.push(((x >> 32u64) & 0xff) as u8);
    out.push(((x >> 40u64) & 0xff) as u8);
    out.push(((x >> 48u64) & 0xff) as u8);
    out.push(((x >> 56u64) & 0xff) as u8);
    assert(final(out)@ =~= old(out)@ + le_u64(x));
}

/// Any sorted sequence of 32-bit ids is no longer than the number of ids.
pub proof fn lemma_ascending_len(s: Entries)
    requires
        keys_ascending(s),
    ensures
        s.len() <= 0x1_0000_0000,
{
    if s.len() > 0 {
        assert forall|i: int| 0 <= i < s.len() implies s[i].0 >= i by {
            lemma_ascending_lower_bound(s, i);
        }
        assert(s[s.len() - 1].0 >= s.len() - 1);
    }
}

proof fn lemma_ascending_lower_bound(s: Entries, i: int)
    requires
        keys_ascending(s),
        0 <= i < s.len(),
    ensures
        s[i].0 >= i,
    decreases i,
{
    if i > 0 {
        lemma_ascending_lower_bound(s, i - 1);
    }
}

proof fn lemma_le_u32_injective(x: u32, y: u32)
    requires
        le_u32(x) == le_u32(y),
    ensures
        x == y,
{
    assert(le_u32(x)[0] == le_u32(y)[0]);
    assert(le_u32(x)[1] == le_u32(y)[1]);
    assert(le_u32(x)[2] == le_u32(y)[2]);
    assert(le_u32(x)[3] == le_u32(y)[3]);
    assert(x == y) by (bit_vector)
        requires
            (x & 0xff) as u8 == (y & 0xff) as u8,
            ((x >> 8u32) & 0xff) as u8 == ((y >> 8u32) & 0xff) as u8,
            ((x >> 16u32) & 0xff) as u8 == ((y >> 16u32) & 0xff) as u8,
            ((x >> 24u32) & 0xff) as u8 == ((y >> 24u32) & 0xff) as u8,
    ;
}

proof fn lemma_le_u64_injective(x: u64, y: u64)
    requires
        le_u64(x) == le_u64(y),
    ensures
        x == y,
{
    assert(le_u64(x)[0] == le_u64(y)[0]);
    assert(le_u64(x)[1] == le_u64(y)[1]);
    assert(le_u64(x)[2] == le_u64(y)[2]);
    assert(le_u64(x)[3] == le_u64(y)[3]);
    assert(le_u64(x)[4] == le_u64(y)[4]);
    assert(le_u64(x)[5] == le_u64(y)[5]);
    assert(le_u64(x)[6] == le_u64(y)[6]);
    assert(le_u64(x)[7] == le_u64(y)[7]);
    assert(x == y) by (bit_vector)
        requires
            (x & 0xff) as u8 == (y & 0xff) as u8,
            ((x >> 8u64) & 0xff) as u8 == ((y >> 8u64) & 0xff) as u8,
            ((x >> 16u64) & 0xff) as u8 == ((y >> 16u64) & 0xff) as u8,
            ((x >> 24u64) & 0xff) as u8 == ((y >> 24u64) & 0xff) as u8,
            ((x >> 32u64) & 0xff) as u8 == ((y >> 32u64) & 0xff) as u8,
            ((x >> 40u64) & 0xff) as u8 == ((y >> 40u64) & 0xff) as u8,
            ((x >> 48u64) & 0xff) as u8 == ((y >> 48u64) & 0xff) as u8,
            ((x >> 56u64) & 0xff) as u8 == ((y >> 56u64) & 0xff) as u8,
    ;
}

proof fn lemma_entries_messages_len(s: Entries)
    ensures
        entries_messages(s).len() == 2 * s.len(),
    decreases s.len(),
{
    if s.len() > 0 {
        lemma_entries_messages_len(s.drop_last());
    }
}

proof fn lemma_entries_messages_injective(s1: Entries, s2: Entries)
    requires
        s1.len() == s2.len(),
        entries_messages(s1) == entries_messages(s2),
    ensures
        s1 == s2,
    decreases s1.len(),
{
    if s1.len() > 0 {
        let (p1, p2) = (s1.drop_last(), s2.drop_last());
        lemma_entries_messages_len(p1);
        lemma_entries_messages_len(p2);
        let n = 2 * p1.len() as int;
        let m = entries_messages(s1);
        assert(m.subrange(0, n) =~= entries_messages(p1));
        assert(entries_messages(s2).subrange(0, n) =~= entries_messages(p2));
        assert(m[n] == le_u32(s1.last().0) && m[n + 1] == le_u64(s1.last().1));
        assert(m[n] == le_u32(s2.last().0) && m[n + 1] == le_u64(s2.last().1));
        lemma_entries_messages_injective(p1, p2);
        lemma_le_u32_injective(s1.last().0, s2.last().0);
        lemma_le_u64_injective(s1.last().1, s2.last().1);
        assert(s1 =~= p1.push(s1.last()));
        assert(s2 =~= p2.push(s2.last()));
    }
}

/// Distinct sequences of entries give distinct transcript messages.
pub proof fn lemma_messages_injective(s1: Entries, s2: Entries)
    requires
        transcript_messages(s1) == transcript_messages(s2),
    ensures
        s1 == s2,
{
    lemma_entries_messages_len(s1);
    lemma_entries_messages_len(s2);
    let (t1, t2) = (transcript_messages(s1), transcript_messages(s2));
    assert(t1.len() == 1 + 2 * s1.len());
    assert(t2.len() == 1 + 2 * s2.len());
    assert(t1.subrange(1, t1.len() as int) =~= entries_messages(s1));
    assert(t2.subrange(1, t2.len() as int) =~= entries_messages(s2));
    lemma_entries_messages_injective(s1, s2);
}

/// Computes the digest text of a sorted sequence of entries.
pub fn digest_entries(entries: &Vec<(u32, u64)>) -> (r: String)
    requires
        keys_ascending(entries@),
    ensures
        r@ == digest_text(entries@),
        r@.len() == 64,
{
    proof {
        lemma_ascending_len(entries@);
    }
    let n: usize = entries.len();
    let mut transcript = FeeTranscript::new();
    let mut header: Vec<u8> = Vec::new();
    push_u64(&mut header, 2 * (n as u64));
    transcript.append(header.as_slice());
    let ghost first = transcript.fed@;
    let mut i: usize = 0;
    while i < n
        invariant
            n == entries@.len(),
            i <= n,
            first == seq![le_u64((2 * entries@.len()) as u64)],
            transcript.fed@ == first + entries_messages(entries@.subrange(0, i as int)),
        decreases n - i,
    {
        let (id, fee) = entries[i];
        let mut id_bytes: Vec<u8> = Vec::new();
        push_u32(&mut id_bytes, id);
        transcript.append(id_bytes.as_slice());
        let mut fee_bytes: Vec<u8> = Vec::new();
        push_u64(&mut fee_bytes, fee);
        transcript.append(fee_bytes.as_slice());
        proof {
            let s = entries@.subrange(0, i + 1);
            assert(s.drop_last() =~= entries@.subrange(0, i as int));
            assert(s.last() == (id, fee));
        }
        assert(transcript.fed@ =~= first + entries_messages(entries@.subrange(0, i + 1)));
        i = i + 1;
    }
    assert(entries@.subrange(0, n as int) =~= entries@);
    let bytes = FeeTranscript::challenge(transcript);
    hex_encode(&bytes)
}

} // verus!
