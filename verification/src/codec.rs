//! Serialization of resolution records.
//!
//! A record is flattened, by verified code, into a sequence of words whose
//! layout is stated exactly by [`record_words`]; the byte rendering of that
//! word sequence is delegated to `bincode`. Decoding states a full round
//! trip: bytes that are the encoding of some record decode to that record.

use vstd::prelude::*;

use crate::record::{ResolutionRecord, ResolutionRecordItem};

verus! {

/// The five words that stand for one record item.
pub open spec fn item_words(it: ResolutionRecordItem) -> Seq<u64> {
    seq![
        it.added_at,
        it.accepted_at,
        it.order_len as u64,
        it.order_ix,
        it.parallelism as u64,
    ]
}

/// The concatenated words of a sequence of record items.
pub open spec fn items_words(s: Seq<ResolutionRecordItem>) -> Seq<u64>
    decreases s.len(),
{
    if s.len() == 0 {
        Seq::empty()
    } else {
        items_words(s.drop_last()) + item_words(s.last())
    }
}

/// The word layout of a whole record: the two shape counters, the item
/// count, then five words per item.
pub open spec fn record_words(r: ResolutionRecord) -> Seq<u64> {
    seq![
        r.registrations_count as u64,
        r.values_count as u64,
        r.items@.len() as u64,
    ] + items_words(r.items@)
}

/// Equality of records up to their logical content.
pub open spec fn record_eq(a: ResolutionRecord, b: ResolutionRecord) -> bool {
    &&& a.registrations_count == b.registrations_count
    &&& a.values_count == b.values_count
    &&& a.items@ == b.items@
}

/// The byte rendering of a record.
pub open spec fn record_bytes(r: ResolutionRecord) -> Seq<u8> {
    u64s_encoding(record_words(r))
}

pub proof fn lemma_items_words_len(s: Seq<ResolutionRecordItem>)
    ensures
        items_words(s).len() == 5 * s.len(),
    decreases s.len(),
{
    if s.len() > 0 {
        lemma_items_words_len(s.drop_last());
    }
}

pub proof fn lemma_items_words_index(s: Seq<ResolutionRecordItem>, i: int)
    requires
        0 <= i < s.len(),
    ensures
        items_words(s).subrange(5 * i, 5 * i + 5) == item_words(s[i]),
    decreases s.len(),
{
    lemma_items_words_len(s);
    lemma_items_words_len(s.drop_last());
    if i == s.len() - 1 {
        assert(items_words(s).subrange(5 * i, 5 * i + 5) =~= item_words(s[i]));
    } else {
        lemma_items_words_index(s.drop_last(), i);
        assert(s.drop_last()[i] == s[i]);
        assert(items_words(s).subrange(5 * i, 5 * i + 5) =~= items_words(s.drop_last()).subrange(
            5 * i,
            5 * i + 5,
        ));
    }
}

/// Two records with the same word layout have the same content.
pub proof fn lemma_record_words_injective(a: ResolutionRecord, b: ResolutionRecord)
    requires
        record_words(a) == record_words(b),
    ensures
        record_eq(a, b),
{
    lemma_items_words_len(a.items@);
    lemma_items_words_len(b.items@);
    assert(record_words(a).len() == record_words(b).len());
    assert(record_words(a).len() == 3 + items_words(a.items@).len());
    assert(record_words(b).len() == 3 + items_words(b.items@).len());
    assert(items_words(a.items@).len() == items_words(b.items@).len());
    assert(record_words(a)[0] == record_words(b)[0]);
    assert(record_words(a)[1] == record_words(b)[1]);
    assert(record_words(a)[2] == record_words(b)[2]);
    assert(a.items@.len() == b.items@.len());
    let ha = seq![a.registrations_count as u64, a.values_count as u64, a.items@.len() as u64];
    let hb = seq![b.registrations_count as u64, b.values_count as u64, b.items@.len() as u64];
    assert(ha.len() == 3 && hb.len() == 3);
    assert(record_words(a) == ha + items_words(a.items@));
    assert(record_words(b) == hb + items_words(b.items@));
    assert(items_words(a.items@) =~= items_words(b.items@)) by {
        assert forall|k: int| 0 <= k < items_words(a.items@).len() implies items_words(a.items@)[k]
            == items_words(b.items@)[k] by {
            assert((ha + items_words(a.items@))[k + 3] == items_words(a.items@)[k]);
            assert((hb + items_words(b.items@))[k + 3] == items_words(b.items@)[k]);
            assert(record_words(a)[k + 3] == record_words(b)[k + 3]);
        }
    }
    assert((ha + items_words(a.items@))[0] == ha[0]);
    assert((hb + items_words(b.items@))[0] == hb[0]);
    assert((ha + items_words(a.items@))[1] == ha[1]);
    assert((hb + items_words(b.items@))[1] == hb[1]);
    assert(a.registrations_count as u64 == b.registrations_count as u64);
    assert(a.values_count as u64 == b.values_count as u64);
    assert(a.registrations_count == b.registrations_count);
    assert(a.values_count == b.values_count);
    assert forall|i: int| 0 <= i < a.items@.len() implies a.items@[i] == b.items@[i] by {
        lemma_items_words_index(a.items@, i);
        lemma_items_words_index(b.items@, i);
        let wa = item_words(a.items@[i]);
        let wb = item_words(b.items@[i]);
        assert(wa == wb);
        assert(wa[0] == wb[0] && wa[1] == wb[1] && wa[2] == wb[2] && wa[3] == wb[3] && wa[4]
            == wb[4]);
    }
    assert(a.items@ =~= b.items@);
}

/// Flattens a record into its word layout.
pub fn record_to_words(r: &ResolutionRecord) -> (w: Vec<u64>)
    ensures
        w@ == record_words(*r),
{
    let mut w: Vec<u64> = Vec::new();
    w.push(r.registrations_count as u64);
    w.push(r.values_count as u64);
    w.push(r.items.len() as u64);
    let mut i: usize = 0;
    while i < r.items.len()
        invariant
            i <= r.items@.len(),
            w@ == seq![
                r.registrations_count as u64,
                r.values_count as u64,
                r.items@.len() as u64,
            ] + items_words(r.items@.subrange(0, i as int)),
        decreases r.items@.len() - i,
    {
        let it = r.items[i];
        w.push(it.added_at);
        w.push(it.accepted_at);
        w.push(it.order_len as u64);
        w.push(it.order_ix);
        w.push(it.parallelism as u64);
        proof {
            let sub = r.items@.subrange(0, i + 1);
            assert(sub.drop_last() =~= r.items@.subrange(0, i as int));
            assert(sub.last() == r.items@[i as int]);
            assert(w@ =~= seq![
                r.registrations_count as u64,
                r.values_count as u64,
                r.items@.len() as u64,
            ] + items_words(sub));
        }
        i += 1;
    }
    proof {
        assert(r.items@.subrange(0, r.items@.len() as int) =~= r.items@);
    }
    w
}

/// Rebuilds a record from its word layout; `None` exactly when no record has
/// this layout.
pub fn words_to_record(w: &Vec<u64>) -> (r: Option<ResolutionRecord>)
    ensures
        r matches Some(rec) ==> record_words(rec) == w@,
        forall|rec: ResolutionRecord| record_words(rec) == w@ ==> r is Some,
{
    proof {
        assert forall|rec: ResolutionRecord| record_words(rec) == w@ implies w@.len() == 3 + 5
            * rec.items@.len() by {
            lemma_items_words_len(rec.items@);
        }
    }
    if w.len() < 3 {
        return None;
    }
    if w[0] > usize::MAX as u64 || w[1] > usize::MAX as u64 {
        return None;
    }
    let registrations_count = w[0] as usize;
    let values_count = w[1] as usize;
    let body = w.len() - 3;
    if body % 5 != 0 {
        return None;
    }
    let n = body / 5;
    if w[2] != n as u64 {
        return None;
    }
    let mut items: Vec<ResolutionRecordItem> = Vec::new();
    let mut i: usize = 0;
    while i < n
        invariant
            i <= n,
            w@.len() == 3 + 5 * n,
            items@.len() == i,
            items_words(items@) == w@.subrange(3, 3 + 5 * i),
            registrations_count as u64 == w@[0],
            values_count as u64 == w@[1],
            n as u64 == w@[2],
        decreases n - i,
    {
        let base = 3 + 5 * i;
        if w[base + 2] > usize::MAX as u64 || w[base + 4] > u16::MAX as u64 {
            proof {
                assert forall|rec: ResolutionRecord| record_words(rec) != w@ by {
                    if record_words(rec) == w@ {
                        lemma_items_words_len(rec.items@);
                        assert(rec.items@.len() == n);
                        lemma_items_words_index(rec.items@, i as int);
                        let iw = item_words(rec.items@[i as int]);
                        assert(iw == items_words(rec.items@).subrange(5 * i, 5 * i + 5));
                        assert(iw[2] == record_words(rec)[base + 2]);
                        assert(iw[4] == record_words(rec)[base + 4]);
                        assert(iw[2] == w@[base + 2] && iw[4] == w@[base + 4]);
                    }
                }
            }
            return None;
        }
        let it = ResolutionRecordItem {
            added_at: w[base],
            accepted_at: w[base + 1],
            order_len: w[base + 2] as usize,
            order_ix: w[base + 3],
            parallelism: w[base + 4] as u16,
        };
        let ghost prev = items@;
        items.push(it);
        proof {
            assert(items@.drop_last() =~= prev);
            assert(items@.last() == it);
            assert(item_words(it) =~= w@.subrange(3 + 5 * i, 3 + 5 * (i + 1)));
            assert(items_words(items@) == items_words(prev) + item_words(it));
            assert(items_words(items@) =~= w@.subrange(3, 3 + 5 * (i + 1)));
        }
        i += 1;
    }
    let rec = ResolutionRecord { items, registrations_count, values_count };
    proof {
        assert(items_words(rec.items@) == w@.subrange(3, 3 + 5 * n));
        assert(w@.subrange(3, 3 + 5 * n) =~= w@.subrange(3, w@.len() as int));
        assert(record_words(rec) =~= w@);
    }
    Some(rec)
}

/// One word as its eight little-endian bytes.
pub open spec fn u64_le_bytes(w: u64) -> Seq<u8> {
    seq![
        (w & 0xff) as u8,
        ((w >> 8) & 0xff) as u8,
        ((w >> 16) & 0xff) as u8,
        ((w >> 24) & 0xff) as u8,
        ((w >> 32) & 0xff) as u8,
        ((w >> 40) & 0xff) as u8,
        ((w >> 48) & 0xff) as u8,
        ((w >> 56) & 0xff) as u8,
    ]
}

/// The concatenated little-endian bytes of a sequence of words.
pub open spec fn words_le_bytes(ws: Seq<u64>) -> Seq<u8>
    decreases ws.len(),
{
    if ws.len() == 0 {
        Seq::empty()
    } else {
        words_le_bytes(ws.drop_last()) + u64_le_bytes(ws.last())
    }
}

/// How bincode's default configuration renders a sequence of words as bytes:
/// the length as one little-endian word, then each element little-endian.
pub open spec fn u64s_encoding(words: Seq<u64>) -> Seq<u8> {
    u64_le_bytes(words.len() as u64) + words_le_bytes(words)
}

/// Relies on `bincode::serialize`: with the default options the bytes
/// produced for a `Vec<u64>` depend on the elements alone (fixed-width
/// little-endian, length first), and writing into an in-memory vector with
/// no size limit cannot fail.
#[verifier::external_body]
fn serialize_words(words: &Vec<u64>) -> (r: Option<Vec<u8>>)
    ensures
        r is Some,
        r matches Some(b) ==> b@ == u64s_encoding(words@),
{
    match bincode::serialize(words) {
        Ok(b) => Some(b),
        Err(_) => None,
    }
}

/// Relies on `bincode::deserialize`: it inverts `bincode::serialize`, and
/// with the default options it tolerates trailing bytes, so a successful
/// parse pins down only a prefix of the input.
#[verifier::external_body]
fn deserialize_words(bytes: &Vec<u8>) -> (r: Option<Vec<u64>>)
    ensures
        r matches Some(ws) ==> u64s_encoding(ws@).is_prefix_of(bytes@),
        forall|ws: Seq<u64>| bytes@ == u64s_encoding(ws) ==> r is Some && r.unwrap()@ == ws,
{
    match bincode::deserialize::<Vec<u64>>(bytes.as_slice()) {
        Ok(ws) => Some(ws),
        Err(_) => None,
    }
}

/// Renders a record as bytes; always succeeds.
pub fn encode_record(r: &ResolutionRecord) -> (b: Option<Vec<u8>>)
    ensures
        b is Some,
        b matches Some(bytes) ==> bytes@ == record_bytes(*r),
{
    let words = record_to_words(r);
    serialize_words(&words)
}

/// Parses bytes produced by [`encode_record`]: bytes that are the encoding
/// of some record decode to a record with that record's exact content.
pub fn decode_record(bytes: &Vec<u8>) -> (r: Option<ResolutionRecord>)
    ensures
        r matches Some(rec) ==> record_bytes(rec).is_prefix_of(bytes@),
        forall|rec: ResolutionRecord|
            bytes@ == record_bytes(rec) ==> r is Some && record_eq(r.unwrap(), rec),
{
    let words = match deserialize_words(bytes) {
        Some(ws) => ws,
        None => {
            return None;
        },
    };
    let out = words_to_record(&words);
    proof {
        assert forall|rec: ResolutionRecord| bytes@ == record_bytes(rec) implies out is Some
            && record_eq(out.unwrap(), rec) by {
            assert(words@ == record_words(rec));
            lemma_record_words_injective(out.unwrap(), rec);
        }
    }
    out
}

} // verus!
