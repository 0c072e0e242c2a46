//! The snapshot of the pool: all four stores written as one byte string, and
//! read back from it.
//!
//! A snapshot holds, one after the other, the list of the buckets of
//! attestations, the list of the attester slashings, the list of the proposer
//! slashings and the list of the voluntary exits. A list is its length followed
//! by its items; lengths and integers take eight bytes, the lowest first.
//! Reading gives back the pool that was written, and refuses every byte string
//! that is not the snapshot of a well-formed pool.

use vstd::prelude::*;
use vstd::bytes::*;
use crate::attestation_id::AttestationId;
use crate::attestation_store::{
    attestation_views, store_well_formed, AttestationStore, Bucket, BucketView,
};
use crate::attester_slashing_store::{
    pairs_distinct, AttesterSlashingStore, SlashingEntry, SlashingEntryView,
};
use crate::codec::{
    encode_bytes, encode_items_upto, encode_list, lemma_parse_bytes, lemma_parse_items_fails,
    lemma_parse_list, lemma_sits_at_split, parse_bytes, parse_items, parse_list, parse_u64,
    reads_back, sits_at, write_bytes, Reader,
};
use crate::encoding::append_u64;
use crate::pool::OperationPool;
use crate::snapshot_items::{
    encode_attestation, encode_exit_entry, encode_indexed, encode_proposer_entry,
    lemma_parse_attestation, lemma_parse_exit_entry, lemma_parse_indexed,
    lemma_parse_proposer_entry, parse_attestation, parse_exit_entry, parse_indexed,
    parse_proposer_entry, read_attestation, read_exit_entry, read_indexed, read_proposer_entry,
    write_attestation, write_exit_entry, write_indexed, write_proposer_entry,
};
use crate::types::{
    Attestation, AttestationView, AttesterSlashing, AttesterSlashingView, ProposerSlashing,
    VoluntaryExit,
};
use crate::validator_map::{keys_distinct, ValidatorMap};

verus! {

/// Why a byte string is not read as a pool.
#[derive(Clone, Copy, Debug, PartialEq, Eq)]
pub enum SnapshotError {
    /// The bytes end early, or hold a byte that cannot stand where it stands.
    Malformed,
    /// Bytes follow the four lists.
    TrailingBytes,
    /// The four lists are read, and they are not the stores of a pool: an
    /// identity or a validator occurs twice, a bucket is empty, or an
    /// attestation lies in the bucket of another vote.
    Inconsistent,
}

/// The value of an [`OperationPool`].
pub struct PoolView {
    pub attestations: Seq<BucketView>,
    pub attester_slashings: Seq<SlashingEntryView>,
    pub proposer_slashings: Seq<(u64, ProposerSlashing)>,
    pub voluntary_exits: Seq<(u64, VoluntaryExit)>,
}

impl View for OperationPool {
    type V = PoolView;

    open spec fn view(&self) -> PoolView {
        PoolView {
            attestations: self.attestations@,
            attester_slashings: self.attester_slashings@,
            proposer_slashings: self.proposer_slashings@,
            voluntary_exits: self.voluntary_exits@,
        }
    }
}

/// How an attestation is written.
pub open spec fn attestation_encoder() -> spec_fn(AttestationView) -> Seq<u8> {
    |a: AttestationView| encode_attestation(a)
}

/// How an attestation is read.
pub open spec fn attestation_parser() -> spec_fn(Seq<u8>, int) -> Option<(AttestationView, int)> {
    |s: Seq<u8>, pos: int| parse_attestation(s, pos)
}

/// The bytes of a bucket: its identity, then the list of its attestations.
pub open spec fn encode_bucket(bucket: BucketView) -> Seq<u8> {
    encode_bytes(bucket.id) + encode_list(bucket.attestations, attestation_encoder())
}

/// The bucket at `pos`.
pub open spec fn parse_bucket(s: Seq<u8>, pos: int) -> Option<(BucketView, int)> {
    match parse_bytes(s, pos) {
        Some((id, at1)) => match parse_list(s, at1, attestation_parser()) {
            Some((attestations, at2)) => Some((BucketView { id, attestations }, at2)),
            None => None,
        },
        None => None,
    }
}

/// The bytes of an attester slashing: the two identities, then the two
/// attestations.
pub open spec fn encode_slashing_entry(entry: SlashingEntryView) -> Seq<u8> {
    encode_bytes(entry.id_1) + encode_bytes(entry.id_2) + encode_indexed(
        entry.slashing.attestation_1,
    ) + encode_indexed(entry.slashing.attestation_2)
}

/// The attester slashing at `pos`.
pub open spec fn parse_slashing_entry(s: Seq<u8>, pos: int) -> Option<(SlashingEntryView, int)> {
    match parse_bytes(s, pos) {
        Some((id_1, at1)) => match parse_bytes(s, at1) {
            Some((id_2, at2)) => match parse_indexed(s, at2) {
                Some((attestation_1, at3)) => match parse_indexed(s, at3) {
                    Some((attestation_2, at4)) => Some(
                        (
                            SlashingEntryView {
                                id_1,
                                id_2,
                                slashing: AttesterSlashingView { attestation_1, attestation_2 },
                            },
                            at4,
                        ),
                    ),
                    None => None,
                },
                None => None,
            },
            None => None,
        },
        None => None,
    }
}

/// How a bucket is written.
pub open spec fn bucket_encoder() -> spec_fn(BucketView) -> Seq<u8> {
    |b: BucketView| encode_bucket(b)
}

/// How a bucket is read.
pub open spec fn bucket_parser() -> spec_fn(Seq<u8>, int) -> Option<(BucketView, int)> {
    |s: Seq<u8>, pos: int| parse_bucket(s, pos)
}

/// How an attester slashing is written.
pub open spec fn slashing_encoder() -> spec_fn(SlashingEntryView) -> Seq<u8> {
    |e: SlashingEntryView| encode_slashing_entry(e)
}

/// How an attester slashing is read.
pub open spec fn slashing_parser() -> spec_fn(Seq<u8>, int) -> Option<(SlashingEntryView, int)> {
    |s: Seq<u8>, pos: int| parse_slashing_entry(s, pos)
}

/// How a proposer slashing is written.
pub open spec fn proposer_encoder() -> spec_fn((u64, ProposerSlashing)) -> Seq<u8> {
    |e: (u64, ProposerSlashing)| encode_proposer_entry(e)
}

/// How a proposer slashing is read.
pub open spec fn proposer_parser() -> spec_fn(Seq<u8>, int) -> Option<
    ((u64, ProposerSlashing), int),
> {
    |s: Seq<u8>, pos: int| parse_proposer_entry(s, pos)
}

/// How a voluntary exit is written.
pub open spec fn exit_encoder() -> spec_fn((u64, VoluntaryExit)) -> Seq<u8> {
    |e: (u64, VoluntaryExit)| encode_exit_entry(e)
}

/// How a voluntary exit is read.
pub open spec fn exit_parser() -> spec_fn(Seq<u8>, int) -> Option<((u64, VoluntaryExit), int)> {
    |s: Seq<u8>, pos: int| parse_exit_entry(s, pos)
}

/// The snapshot of a pool.
pub open spec fn encode_pool(pool: PoolView) -> Seq<u8> {
    encode_list(pool.attestations, bucket_encoder()) + encode_list(
        pool.attester_slashings,
        slashing_encoder(),
    ) + encode_list(pool.proposer_slashings, proposer_encoder()) + encode_list(
        pool.voluntary_exits,
        exit_encoder(),
    )
}

/// The four lists at the start of `s`, and where they end.
pub open spec fn parse_pool(s: Seq<u8>) -> Option<(PoolView, int)> {
    match parse_list(s, 0, bucket_parser()) {
        Some((attestations, at1)) => match parse_list(s, at1, slashing_parser()) {
            Some((attester_slashings, at2)) => match parse_list(s, at2, proposer_parser()) {
                Some((proposer_slashings, at3)) => match parse_list(s, at3, exit_parser()) {
                    Some((voluntary_exits, at4)) => Some(
                        (
                            PoolView {
                                attestations,
                                attester_slashings,
                                proposer_slashings,
                                voluntary_exits,
                            },
                            at4,
                        ),
                    ),
                    None => None,
                },
                None => None,
            },
            None => None,
        },
        None => None,
    }
}

/// Whether the four stores are well formed.
pub open spec fn pool_well_formed(pool: PoolView) -> bool {
    &&& store_well_formed(pool.attestations)
    &&& pairs_distinct(pool.attester_slashings)
    &&& keys_distinct(pool.proposer_slashings)
    &&& keys_distinct(pool.voluntary_exits)
}

/// The pool that a byte string is the snapshot of, or why it is none.
pub open spec fn spec_from_bytes(s: Seq<u8>) -> Result<PoolView, SnapshotError> {
    match parse_pool(s) {
        None => Err(SnapshotError::Malformed),
        Some((pool, end)) => if end != s.len() {
            Err(SnapshotError::TrailingBytes)
        } else if !pool_well_formed(pool) {
            Err(SnapshotError::Inconsistent)
        } else {
            Ok(pool)
        },
    }
}

/// Whether every length of the pool can be written in eight bytes; so it is
/// for every pool that a machine holds.
pub open spec fn pool_fits(pool: PoolView) -> bool {
    &&& pool.attestations.len() <= u64::MAX
    &&& pool.attester_slashings.len() <= u64::MAX
    &&& pool.proposer_slashings.len() <= u64::MAX
    &&& pool.voluntary_exits.len() <= u64::MAX
    &&& forall|i: int| 0 <= i < pool.attestations.len() ==> bucket_fits(#[trigger] pool.attestations[i])
    &&& forall|i: int|
        0 <= i < pool.attester_slashings.len() ==> slashing_fits(
            #[trigger] pool.attester_slashings[i],
        )
}

/// Whether every length of the bucket can be written in eight bytes.
pub open spec fn bucket_fits(bucket: BucketView) -> bool {
    &&& bucket.id.len() <= u64::MAX
    &&& bucket.attestations.len() <= u64::MAX
    &&& forall|k: int|
        0 <= k < bucket.attestations.len() ==> (
        #[trigger] bucket.attestations[k]).aggregation_bits.len() <= u64::MAX
}

/// Whether every length of the slashing can be written in eight bytes.
pub open spec fn slashing_fits(entry: SlashingEntryView) -> bool {
    &&& entry.id_1.len() <= u64::MAX
    &&& entry.id_2.len() <= u64::MAX
    &&& entry.slashing.attestation_1.attesting_indices.len() <= u64::MAX
    &&& entry.slashing.attestation_2.attesting_indices.len() <= u64::MAX
}

/// A bucket that was written is read back.
pub proof fn lemma_parse_bucket(s: Seq<u8>, pos: int, bucket: BucketView)
    requires
        bucket_fits(bucket),
        sits_at(s, pos, encode_bucket(bucket)),
    ensures
        parse_bucket(s, pos) == Some((bucket, pos + encode_bucket(bucket).len())),
{
    let id = encode_bytes(bucket.id);
    let list = encode_list(bucket.attestations, attestation_encoder());
    lemma_sits_at_split(s, pos, id, list);
    lemma_parse_bytes(s, pos, bucket.id);
    assert forall|i: int| 0 <= i < bucket.attestations.len() implies reads_back(
        attestation_encoder(),
        attestation_parser(),
        #[trigger] bucket.attestations[i],
    ) by {
        let a = bucket.attestations[i];
        assert forall|t: Seq<u8>, p: int| #[trigger]
            sits_at(t, p, attestation_encoder()(a)) implies attestation_parser()(t, p) == Some(
            (a, p + attestation_encoder()(a).len()),
        ) by {
            lemma_parse_attestation(t, p, a);
        }
    }
    lemma_parse_list(
        s,
        pos + id.len(),
        bucket.attestations,
        attestation_encoder(),
        attestation_parser(),
    );
}

/// An attester slashing that was written is read back.
pub proof fn lemma_parse_slashing_entry(s: Seq<u8>, pos: int, entry: SlashingEntryView)
    requires
        slashing_fits(entry),
        sits_at(s, pos, encode_slashing_entry(entry)),
    ensures
        parse_slashing_entry(s, pos) == Some((entry, pos + encode_slashing_entry(entry).len())),
{
    let id_1 = encode_bytes(entry.id_1);
    let id_2 = encode_bytes(entry.id_2);
    let first = encode_indexed(entry.slashing.attestation_1);
    let second = encode_indexed(entry.slashing.attestation_2);
    assert(encode_slashing_entry(entry) =~= id_1 + (id_2 + (first + second)));
    lemma_sits_at_split(s, pos, id_1, id_2 + (first + second));
    lemma_sits_at_split(s, pos + id_1.len(), id_2, first + second);
    lemma_sits_at_split(s, pos + id_1.len() + id_2.len(), first, second);
    lemma_parse_bytes(s, pos, entry.id_1);
    lemma_parse_bytes(s, pos + id_1.len(), entry.id_2);
    lemma_parse_indexed(s, pos + id_1.len() + id_2.len(), entry.slashing.attestation_1);
    lemma_parse_indexed(
        s,
        pos + id_1.len() + id_2.len() + first.len(),
        entry.slashing.attestation_2,
    );
}

/// A list of buckets that was written is read back.
pub proof fn lemma_parse_buckets(s: Seq<u8>, pos: int, buckets: Seq<BucketView>)
    requires
        buckets.len() <= u64::MAX,
        forall|i: int| 0 <= i < buckets.len() ==> bucket_fits(#[trigger] buckets[i]),
        sits_at(s, pos, encode_list(buckets, bucket_encoder())),
    ensures
        parse_list(s, pos, bucket_parser()) == Some(
            (buckets, pos + encode_list(buckets, bucket_encoder()).len()),
        ),
{
    assert forall|i: int| 0 <= i < buckets.len() implies reads_back(
        bucket_encoder(),
        bucket_parser(),
        #[trigger] buckets[i],
    ) by {
        let b = buckets[i];
        assert forall|t: Seq<u8>, p: int| #[trigger]
            sits_at(t, p, bucket_encoder()(b)) implies bucket_parser()(t, p) == Some(
            (b, p + bucket_encoder()(b).len()),
        ) by {
            lemma_parse_bucket(t, p, b);
        }
    }
    lemma_parse_list(s, pos, buckets, bucket_encoder(), bucket_parser());
}

/// A list of attester slashings that was written is read back.
pub proof fn lemma_parse_slashings(s: Seq<u8>, pos: int, entries: Seq<SlashingEntryView>)
    requires
        entries.len() <= u64::MAX,
        forall|i: int| 0 <= i < entries.len() ==> slashing_fits(#[trigger] entries[i]),
        sits_at(s, pos, encode_list(entries, slashing_encoder())),
    ensures
        parse_list(s, pos, slashing_parser()) == Some(
            (entries, pos + encode_list(entries, slashing_encoder()).len()),
        ),
{
    assert forall|i: int| 0 <= i < entries.len() implies reads_back(
        slashing_encoder(),
        slashing_parser(),
        #[trigger] entries[i],
    ) by {
        let e = entries[i];
        assert forall|t: Seq<u8>, p: int| #[trigger]
            sits_at(t, p, slashing_encoder()(e)) implies slashing_parser()(t, p) == Some(
            (e, p + slashing_encoder()(e).len()),
        ) by {
            lemma_parse_slashing_entry(t, p, e);
        }
    }
    lemma_parse_list(s, pos, entries, slashing_encoder(), slashing_parser());
}

/// A list of proposer slashings that was written is read back.
pub proof fn lemma_parse_proposers(s: Seq<u8>, pos: int, entries: Seq<(u64, ProposerSlashing)>)
    requires
        entries.len() <= u64::MAX,
        sits_at(s, pos, encode_list(entries, proposer_encoder())),
    ensures
        parse_list(s, pos, proposer_parser()) == Some(
            (entries, pos + encode_list(entries, proposer_encoder()).len()),
        ),
{
    assert forall|i: int| 0 <= i < entries.len() implies reads_back(
        proposer_encoder(),
        proposer_parser(),
        #[trigger] entries[i],
    ) by {
        let e = entries[i];
        assert forall|t: Seq<u8>, p: int| #[trigger]
            sits_at(t, p, proposer_encoder()(e)) implies proposer_parser()(t, p) == Some(
            (e, p + proposer_encoder()(e).len()),
        ) by {
            lemma_parse_proposer_entry(t, p, e);
        }
    }
    lemma_parse_list(s, pos, entries, proposer_encoder(), proposer_parser());
}

/// A list of voluntary exits that was written is read back.
pub proof fn lemma_parse_exits(s: Seq<u8>, pos: int, entries: Seq<(u64, VoluntaryExit)>)
    requires
        entries.len() <= u64::MAX,
        sits_at(s, pos, encode_list(entries, exit_encoder())),
    ensures
        parse_list(s, pos, exit_parser()) == Some(
            (entries, pos + encode_list(entries, exit_encoder()).len()),
        ),
{
    assert forall|i: int| 0 <= i < entries.len() implies reads_back(
        exit_encoder(),
        exit_parser(),
        #[trigger] entries[i],
    ) by {
        let e = entries[i];
        assert forall|t: Seq<u8>, p: int| #[trigger]
            sits_at(t, p, exit_encoder()(e)) implies exit_parser()(t, p) == Some(
            (e, p + exit_encoder()(e).len()),
        ) by {
            lemma_parse_exit_entry(t, p, e);
        }
    }
    lemma_parse_list(s, pos, entries, exit_encoder(), exit_parser());
}

/// The snapshot of a well-formed pool is read back as that pool: nothing is
/// lost and nothing is added, in any of the four stores.
pub proof fn law_snapshot_round_trip(pool: PoolView)
    requires
        pool_well_formed(pool),
        pool_fits(pool),
    ensures
        spec_from_bytes(encode_pool(pool)) == Ok::<PoolView, SnapshotError>(pool),
{
    let s = encode_pool(pool);
    let buckets = encode_list(pool.attestations, bucket_encoder());
    let slashings = encode_list(pool.attester_slashings, slashing_encoder());
    let proposers = encode_list(pool.proposer_slashings, proposer_encoder());
    let exits = encode_list(pool.voluntary_exits, exit_encoder());
    let at1 = buckets.len() as int;
    let at2 = at1 + slashings.len();
    let at3 = at2 + proposers.len();
    assert(s =~= buckets + (slashings + (proposers + exits)));
    assert(s.subrange(0, s.len() as int) =~= s);
    lemma_sits_at_split(s, 0, buckets, slashings + (proposers + exits));
    lemma_sits_at_split(s, at1, slashings, proposers + exits);
    lemma_sits_at_split(s, at2, proposers, exits);
    lemma_parse_buckets(s, 0, pool.attestations);
    lemma_parse_slashings(s, at1, pool.attester_slashings);
    lemma_parse_proposers(s, at2, pool.proposer_slashings);
    lemma_parse_exits(s, at3, pool.voluntary_exits);
}

/// The values of a sequence of buckets.
pub open spec fn bucket_views(buckets: Seq<Bucket>) -> Seq<BucketView> {
    Seq::new(buckets.len(), |i: int| buckets[i]@)
}

/// The values of a sequence of attester slashings.
pub open spec fn slashing_views(entries: Seq<SlashingEntry>) -> Seq<SlashingEntryView> {
    Seq::new(entries.len(), |i: int| entries[i]@)
}

/// Appends a bucket to `dst`.
fn write_bucket(dst: &mut Vec<u8>, bucket: &Bucket)
    ensures
        final(dst)@ == old(dst)@ + encode_bucket(bucket@),
{
    write_bytes(dst, bucket.id.v.as_slice());
    append_u64(dst, bucket.attestations.len() as u64);
    let ghost head = dst@;
    let ghost views = bucket@.attestations;
    let mut k: usize = 0;
    assert(dst@ =~= head + encode_items_upto(views, attestation_encoder(), 0));
    while k < bucket.attestations.len()
        invariant
            k <= bucket.attestations@.len(),
            views == bucket@.attestations,
            dst@ == head + encode_items_upto(views, attestation_encoder(), k as nat),
        decreases bucket.attestations@.len() - k,
    {
        write_attestation(dst, &bucket.attestations[k]);
        assert(dst@ =~= head + encode_items_upto(views, attestation_encoder(), (k + 1) as nat));
        k += 1;
    }
    assert(dst@ =~= old(dst)@ + encode_bucket(bucket@));
}

/// Reads a bucket.
fn read_bucket(reader: &mut Reader) -> (r: Option<Bucket>)
    requires
        old(reader).well_formed(),
    ensures
        final(reader).bytes@ == old(reader).bytes@,
        final(reader).well_formed(),
        match r {
            Some(bucket) => parse_bucket(old(reader).bytes@, old(reader).pos as int) == Some(
                (bucket@, final(reader).pos as int),
            ),
            None => parse_bucket(old(reader).bytes@, old(reader).pos as int) is None,
        },
{
    let ghost s = reader.bytes@;
    let ghost origin = reader.pos as int;
    let id = reader.read_bytes()?;
    let ghost middle = reader.pos as int;
    let n = reader.read_u64()?;
    let ghost start = reader.pos as int;
    let mut attestations: Vec<Attestation> = Vec::new();
    let mut k: u64 = 0;
    assert(attestation_views(attestations@) =~= Seq::<AttestationView>::empty());
    while k < n
        invariant
            k <= n,
            reader.bytes@ == s,
            s == old(reader).bytes@,
            origin == old(reader).pos,
            parse_bytes(s, origin) == Some((id@, middle)),
            parse_u64(s, middle) == Some((n, start)),
            reader.well_formed(),
            parse_items(s, start, attestation_parser(), k as nat) == Some(
                (attestation_views(attestations@), reader.pos as int),
            ),
        decreases n - k,
    {
        match read_attestation(reader) {
            Some(a) => {
                let ghost before = attestation_views(attestations@);
                attestations.push(a);
                assert(attestation_views(attestations@) =~= before.push(a@));
            },
            None => {
                proof {
                    lemma_parse_items_fails(
                        s,
                        start,
                        attestation_parser(),
                        (k + 1) as nat,
                        n as nat,
                    );
                }
                return None;
            },
        }
        k += 1;
    }
    Some(Bucket { id: AttestationId { v: id }, attestations })
}

/// Appends an attester slashing to `dst`.
fn write_slashing_entry(dst: &mut Vec<u8>, entry: &SlashingEntry)
    ensures
        final(dst)@ == old(dst)@ + encode_slashing_entry(entry@),
{
    write_bytes(dst, entry.id_1.v.as_slice());
    write_bytes(dst, entry.id_2.v.as_slice());
    write_indexed(dst, &entry.slashing.attestation_1);
    write_indexed(dst, &entry.slashing.attestation_2);
    assert(dst@ =~= old(dst)@ + encode_slashing_entry(entry@));
}

/// Reads an attester slashing.
fn read_slashing_entry(reader: &mut Reader) -> (r: Option<SlashingEntry>)
    requires
        old(reader).well_formed(),
    ensures
        final(reader).bytes@ == old(reader).bytes@,
        final(reader).well_formed(),
        match r {
            Some(entry) => parse_slashing_entry(old(reader).bytes@, old(reader).pos as int)
                == Some((entry@, final(reader).pos as int)),
            None => parse_slashing_entry(old(reader).bytes@, old(reader).pos as int) is None,
        },
{
    let id_1 = reader.read_bytes()?;
    let id_2 = reader.read_bytes()?;
    let attestation_1 = read_indexed(reader)?;
    let attestation_2 = read_indexed(reader)?;
    Some(
        SlashingEntry {
            id_1: AttestationId { v: id_1 },
            id_2: AttestationId { v: id_2 },
            slashing: AttesterSlashing { attestation_1, attestation_2 },
        },
    )
}

/// Appends the list of the buckets to `dst`.
fn write_buckets(dst: &mut Vec<u8>, buckets: &Vec<Bucket>)
    ensures
        final(dst)@ == old(dst)@ + encode_list(bucket_views(buckets@), bucket_encoder()),
{
    append_u64(dst, buckets.len() as u64);
    let ghost head = dst@;
    let ghost views = bucket_views(buckets@);
    let mut k: usize = 0;
    assert(dst@ =~= head + encode_items_upto(views, bucket_encoder(), 0));
    while k < buckets.len()
        invariant
            k <= buckets@.len(),
            views == bucket_views(buckets@),
            dst@ == head + encode_items_upto(views, bucket_encoder(), k as nat),
        decreases buckets@.len() - k,
    {
        write_bucket(dst, &buckets[k]);
        assert(dst@ =~= head + encode_items_upto(views, bucket_encoder(), (k + 1) as nat));
        k += 1;
    }
    assert(dst@ =~= old(dst)@ + encode_list(views, bucket_encoder()));
}

/// Reads the list of the buckets.
fn read_buckets(reader: &mut Reader) -> (r: Option<Vec<Bucket>>)
    requires
        old(reader).well_formed(),
    ensures
        final(reader).bytes@ == old(reader).bytes@,
        final(reader).well_formed(),
        match r {
            Some(buckets) => parse_list(old(reader).bytes@, old(reader).pos as int, bucket_parser())
                == Some((bucket_views(buckets@), final(reader).pos as int)),
            None => parse_list(old(reader).bytes@, old(reader).pos as int, bucket_parser())
                is None,
        },
{
    let ghost s = reader.bytes@;
    let ghost origin = reader.pos as int;
    let n = reader.read_u64()?;
    let ghost start = reader.pos as int;
    let mut buckets: Vec<Bucket> = Vec::new();
    let mut k: u64 = 0;
    assert(bucket_views(buckets@) =~= Seq::<BucketView>::empty());
    while k < n
        invariant
            k <= n,
            reader.bytes@ == s,
            s == old(reader).bytes@,
            origin == old(reader).pos,
            parse_u64(s, origin) == Some((n, start)),
            reader.well_formed(),
            parse_items(s, start, bucket_parser(), k as nat) == Some(
                (bucket_views(buckets@), reader.pos as int),
            ),
        decreases n - k,
    {
        match read_bucket(reader) {
            Some(bucket) => {
                let ghost before = bucket_views(buckets@);
                buckets.push(bucket);
                assert(bucket_views(buckets@) =~= before.push(bucket@));
            },
            None => {
                proof {
                    lemma_parse_items_fails(s, start, bucket_parser(), (k + 1) as nat, n as nat);
                }
                return None;
            },
        }
        k += 1;
    }
    Some(buckets)
}

/// Appends the list of the attester slashings to `dst`.
fn write_slashings(dst: &mut Vec<u8>, entries: &Vec<SlashingEntry>)
    ensures
        final(dst)@ == old(dst)@ + encode_list(slashing_views(entries@), slashing_encoder()),
{
    append_u64(dst, entries.len() as u64);
    let ghost head = dst@;
    let ghost views = slashing_views(entries@);
    let mut k: usize = 0;
    assert(dst@ =~= head + encode_items_upto(views, slashing_encoder(), 0));
    while k < entries.len()
        invariant
            k <= entries@.len(),
            views == slashing_views(entries@),
            dst@ == head + encode_items_upto(views, slashing_encoder(), k as nat),
        decreases entries@.len() - k,
    {
        write_slashing_entry(dst, &entries[k]);
        assert(dst@ =~= head + encode_items_upto(views, slashing_encoder(), (k + 1) as nat));
        k += 1;
    }
    assert(dst@ =~= old(dst)@ + encode_list(views, slashing_encoder()));
}

/// Reads the list of the attester slashings.
fn read_slashings(reader: &mut Reader) -> (r: Option<Vec<SlashingEntry>>)
    requires
        old(reader).well_formed(),
    ensures
        final(reader).bytes@ == old(reader).bytes@,
        final(reader).well_formed(),
        match r {
            Some(entries) => parse_list(
                old(reader).bytes@,
                old(reader).pos as int,
                slashing_parser(),
            ) == Some((slashing_views(entries@), final(reader).pos as int)),
            None => parse_list(old(reader).bytes@, old(reader).pos as int, slashing_parser())
                is None,
        },
{
    let ghost s = reader.bytes@;
    let ghost origin = reader.pos as int;
    let n = reader.read_u64()?;
    let ghost start = reader.pos as int;
    let mut entries: Vec<SlashingEntry> = Vec::new();
    let mut k: u64 = 0;
    assert(slashing_views(entries@) =~= Seq::<SlashingEntryView>::empty());
    while k < n
        invariant
            k <= n,
            reader.bytes@ == s,
            s == old(reader).bytes@,
            origin == old(reader).pos,
            parse_u64(s, origin) == Some((n, start)),
            reader.well_formed(),
            parse_items(s, start, slashing_parser(), k as nat) == Some(
                (slashing_views(entries@), reader.pos as int),
            ),
        decreases n - k,
    {
        match read_slashing_entry(reader) {
            Some(entry) => {
                let ghost before = slashing_views(entries@);
                entries.push(entry);
                assert(slashing_views(entries@) =~= before.push(entry@));
            },
            None => {
                proof {
                    lemma_parse_items_fails(s, start, slashing_parser(), (k + 1) as nat, n as nat);
                }
                return None;
            },
        }
        k += 1;
    }
    Some(entries)
}

/// Appends the list of the proposer slashings to `dst`.
fn write_proposers(dst: &mut Vec<u8>, entries: &Vec<(u64, ProposerSlashing)>)
    ensures
        final(dst)@ == old(dst)@ + encode_list(entries@, proposer_encoder()),
{
    append_u64(dst, entries.len() as u64);
    let ghost head = dst@;
    let mut k: usize = 0;
    assert(dst@ =~= head + encode_items_upto(entries@, proposer_encoder(), 0));
    while k < entries.len()
        invariant
            k <= entries@.len(),
            dst@ == head + encode_items_upto(entries@, proposer_encoder(), k as nat),
        decreases entries@.len() - k,
    {
        write_proposer_entry(dst, &entries[k]);
        assert(dst@ =~= head + encode_items_upto(entries@, proposer_encoder(), (k + 1) as nat));
        k += 1;
    }
    assert(dst@ =~= old(dst)@ + encode_list(entries@, proposer_encoder()));
}

/// Reads the list of the proposer slashings.
fn read_proposers(reader: &mut Reader) -> (r: Option<Vec<(u64, ProposerSlashing)>>)
    requires
        old(reader).well_formed(),
    ensures
        final(reader).bytes@ == old(reader).bytes@,
        final(reader).well_formed(),
        match r {
            Some(entries) => parse_list(
                old(reader).bytes@,
                old(reader).pos as int,
                proposer_parser(),
            ) == Some((entries@, final(reader).pos as int)),
            None => parse_list(old(reader).bytes@, old(reader).pos as int, proposer_parser())
                is None,
        },
{
    let ghost s = reader.bytes@;
    let ghost origin = reader.pos as int;
    let n = reader.read_u64()?;
    let ghost start = reader.pos as int;
    let mut entries: Vec<(u64, ProposerSlashing)> = Vec::new();
    let mut k: u64 = 0;
    while k < n
        invariant
            k <= n,
            reader.bytes@ == s,
            s == old(reader).bytes@,
            origin == old(reader).pos,
            parse_u64(s, origin) == Some((n, start)),
            reader.well_formed(),
            parse_items(s, start, proposer_parser(), k as nat) == Some(
                (entries@, reader.pos as int),
            ),
        decreases n - k,
    {
        match read_proposer_entry(reader) {
            Some(entry) => {
                entries.push(entry);
            },
            None => {
                proof {
                    lemma_parse_items_fails(s, start, proposer_parser(), (k + 1) as nat, n as nat);
                }
                return None;
            },
        }
        k += 1;
    }
    Some(entries)
}

/// Appends the list of the voluntary exits to `dst`.
fn write_exits(dst: &mut Vec<u8>, entries: &Vec<(u64, VoluntaryExit)>)
    ensures
        final(dst)@ == old(dst)@ + encode_list(entries@, exit_encoder()),
{
    append_u64(dst, entries.len() as u64);
    let ghost head = dst@;
    let mut k: usize = 0;
    assert(dst@ =~= head + encode_items_upto(entries@, exit_encoder(), 0));
    while k < entries.len()
        invariant
            k <= entries@.len(),
            dst@ == head + encode_items_upto(entries@, exit_encoder(), k as nat),
        decreases entries@.len() - k,
    {
        write_exit_entry(dst, &entries[k]);
        assert(dst@ =~= head + encode_items_upto(entries@, exit_encoder(), (k + 1) as nat));
        k += 1;
    }
    assert(dst@ =~= old(dst)@ + encode_list(entries@, exit_encoder()));
}

/// Reads the list of the voluntary exits.
fn read_exits(reader: &mut Reader) -> (r: Option<Vec<(u64, VoluntaryExit)>>)
    requires
        old(reader).well_formed(),
    ensures
        final(reader).bytes@ == old(reader).bytes@,
        final(reader).well_formed(),
        match r {
            Some(entries) => parse_list(old(reader).bytes@, old(reader).pos as int, exit_parser())
                == Some((entries@, final(reader).pos as int)),
            None => parse_list(old(reader).bytes@, old(reader).pos as int, exit_parser()) is None,
        },
{
    let ghost s = reader.bytes@;
    let ghost origin = reader.pos as int;
    let n = reader.read_u64()?;
    let ghost start = reader.pos as int;
    let mut entries: Vec<(u64, VoluntaryExit)> = Vec::new();
    let mut k: u64 = 0;
    while k < n
        invariant
            k <= n,
            reader.bytes@ == s,
            s == old(reader).bytes@,
            origin == old(reader).pos,
            parse_u64(s, origin) == Some((n, start)),
            reader.well_formed(),
            parse_items(s, start, exit_parser(), k as nat) == Some((entries@, reader.pos as int)),
        decreases n - k,
    {
        match read_exit_entry(reader) {
            Some(entry) => {
                entries.push(entry);
            },
            None => {
                proof {
                    lemma_parse_items_fails(s, start, exit_parser(), (k + 1) as nat, n as nat);
                }
                return None;
            },
        }
        k += 1;
    }
    Some(entries)
}

/// Whether two maps of proposer slashings hold the same entries in the same
/// order.
fn same_proposer_slashings(
    a: &ValidatorMap<ProposerSlashing>,
    b: &ValidatorMap<ProposerSlashing>,
) -> (r: bool)
    ensures
        r == (a@ == b@),
{
    if a.entries.len() != b.entries.len() {
        return false;
    }
    let mut i: usize = 0;
    while i < a.entries.len()
        invariant
            i <= a@.len(),
            a@.len() == b@.len(),
            forall|j: int| 0 <= j < i ==> a@[j] == b@[j],
        decreases a@.len() - i,
    {
        if !(a.entries[i].0 == b.entries[i].0 && a.entries[i].1.same_as(&b.entries[i].1)) {
            assert(a@[i as int] != b@[i as int]);
            return false;
        }
        i += 1;
    }
    assert(a@ =~= b@);
    true
}

/// Whether two maps of voluntary exits hold the same entries in the same order.
fn same_exits(a: &ValidatorMap<VoluntaryExit>, b: &ValidatorMap<VoluntaryExit>) -> (r: bool)
    ensures
        r == (a@ == b@),
{
    if a.entries.len() != b.entries.len() {
        return false;
    }
    let mut i: usize = 0;
    while i < a.entries.len()
        invariant
            i <= a@.len(),
            a@.len() == b@.len(),
            forall|j: int| 0 <= j < i ==> a@[j] == b@[j],
        decreases a@.len() - i,
    {
        if !(a.entries[i].0 == b.entries[i].0 && a.entries[i].1.same_as(&b.entries[i].1)) {
            assert(a@[i as int] != b@[i as int]);
            return false;
        }
        i += 1;
    }
    assert(a@ =~= b@);
    true
}

impl Clone for OperationPool {
    fn clone(&self) -> (r: Self)
        ensures
            r@ == self@,
    {
        OperationPool {
            attestations: self.attestations.clone(),
            attester_slashings: self.attester_slashings.clone(),
            proposer_slashings: self.proposer_slashings.clone(),
            voluntary_exits: self.voluntary_exits.clone(),
        }
    }
}

impl OperationPool {
    /// Whether both pools hold the same operations, store by store and in the
    /// same order.
    pub fn same_as(&self, other: &Self) -> (r: bool)
        ensures
            r == (self@ == other@),
    {
        self.attestations.same_as(&other.attestations) && self.attester_slashings.same_as(
            &other.attester_slashings,
        ) && same_proposer_slashings(&self.proposer_slashings, &other.proposer_slashings)
            && same_exits(&self.voluntary_exits, &other.voluntary_exits)
    }

    /// The snapshot of the pool. Every length of a pool that a machine holds
    /// can be written, so that a well-formed pool is read back from its
    /// snapshot.
    pub fn to_bytes(&self) -> (r: Vec<u8>)
        ensures
            r@ == encode_pool(self@),
            pool_fits(self@),
            self.well_formed() ==> spec_from_bytes(r@) == Ok::<PoolView, SnapshotError>(self@),
    {
        proof {
            assert forall|i: int| 0 <= i < self@.attestations.len() implies bucket_fits(
                #[trigger] self@.attestations[i],
            ) by {
                let bucket = self.attestations.buckets@[i];
                assert(self@.attestations[i] == bucket@);
                assert(bucket.id.v.len() <= usize::MAX);
                assert(bucket.attestations.len() <= usize::MAX);
                assert forall|k: int| 0 <= k < bucket@.attestations.len() implies (
                #[trigger] bucket@.attestations[k]).aggregation_bits.len() <= u64::MAX by {
                    assert(bucket@.attestations[k] == bucket.attestations@[k]@);
                    assert(bucket.attestations@[k].aggregation_bits.len() <= usize::MAX);
                }
            }
            assert forall|i: int| 0 <= i < self@.attester_slashings.len() implies slashing_fits(
                #[trigger] self@.attester_slashings[i],
            ) by {
                let entry = self.attester_slashings.entries@[i];
                assert(self@.attester_slashings[i] == entry@);
                assert(entry.id_1.v.len() <= usize::MAX);
                assert(entry.id_2.v.len() <= usize::MAX);
                assert(entry.slashing.attestation_1.attesting_indices.len() <= usize::MAX);
                assert(entry.slashing.attestation_2.attesting_indices.len() <= usize::MAX);
            }
            assert(self.attestations.buckets.len() <= usize::MAX);
            assert(self.attester_slashings.entries.len() <= usize::MAX);
            assert(self.proposer_slashings.entries.len() <= usize::MAX);
            assert(self.voluntary_exits.entries.len() <= usize::MAX);
            if self.well_formed() {
                law_snapshot_round_trip(self@);
            }
        }
        let mut bytes: Vec<u8> = Vec::new();
        write_buckets(&mut bytes, &self.attestations.buckets);
        write_slashings(&mut bytes, &self.attester_slashings.entries);
        write_proposers(&mut bytes, &self.proposer_slashings.entries);
        write_exits(&mut bytes, &self.voluntary_exits.entries);
        assert(bucket_views(self.attestations.buckets@) =~= self.attestations@);
        assert(slashing_views(self.attester_slashings.entries@) =~= self.attester_slashings@);
        assert(bytes@ =~= encode_pool(self@));
        bytes
    }

    /// The pool that `bytes` are the snapshot of. Bytes that are not the
    /// snapshot of a well-formed pool are refused as a whole: no part of them
    /// becomes a pool.
    pub fn from_bytes(bytes: &[u8]) -> (r: Result<OperationPool, SnapshotError>)
        ensures
            match r {
                Ok(pool) => spec_from_bytes(bytes@) == Ok::<PoolView, SnapshotError>(pool@)
                    && pool.well_formed(),
                Err(e) => spec_from_bytes(bytes@) == Err::<PoolView, SnapshotError>(e),
            },
    {
        let mut reader = Reader::new(bytes);
        let buckets = match read_buckets(&mut reader) {
            Some(buckets) => buckets,
            None => {
                return Err(SnapshotError::Malformed);
            },
        };
        let slashings = match read_slashings(&mut reader) {
            Some(slashings) => slashings,
            None => {
                return Err(SnapshotError::Malformed);
            },
        };
        let proposers = match read_proposers(&mut reader) {
            Some(proposers) => proposers,
            None => {
                return Err(SnapshotError::Malformed);
            },
        };
        let exits = match read_exits(&mut reader) {
            Some(exits) => exits,
            None => {
                return Err(SnapshotError::Malformed);
            },
        };
        if reader.remaining() != 0 {
            return Err(SnapshotError::TrailingBytes);
        }
        let pool = OperationPool {
            attestations: AttestationStore { buckets },
            attester_slashings: AttesterSlashingStore { entries: slashings },
            proposer_slashings: ValidatorMap { entries: proposers },
            voluntary_exits: ValidatorMap { entries: exits },
        };
        assert(bucket_views(pool.attestations.buckets@) =~= pool.attestations@);
        assert(slashing_views(pool.attester_slashings.entries@) =~= pool.attester_slashings@);
        if !(pool.attestations.is_well_formed() && pool.attester_slashings.is_well_formed()
            && pool.proposer_slashings.is_well_formed() && pool.voluntary_exits.is_well_formed()) {
            return Err(SnapshotError::Inconsistent);
        }
        Ok(pool)
    }
}

} // verus!
