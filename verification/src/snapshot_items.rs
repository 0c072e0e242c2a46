//! How the operations of the pool are written into a snapshot and read back.

use vstd::prelude::*;
use vstd::bytes::*;
use crate::aggregate_signature::AggregateSignature;
use crate::attestation_id::{encode_checkpoint, encode_data, lemma_encode_data_len};
use crate::codec::{
    encode_bits, encode_flag, encode_indices, lemma_parse_array32, lemma_parse_array96,
    lemma_parse_bits, lemma_parse_flag, lemma_parse_indices, lemma_parse_u64,
    lemma_sits_at_split, parse_array32, parse_array96, parse_bits, parse_flag, parse_indices,
    parse_u64, sits_at, write_bits, write_flag, write_indices, Reader,
};
use crate::encoding::{append_array, append_u64};
use crate::points::RawSignature;
use crate::types::{
    Attestation, AttestationData, AttestationView, BeaconBlockHeader, Checkpoint,
    IndexedAttestation, IndexedAttestationView, ProposerSlashing, SignedBeaconBlockHeader,
    VoluntaryExit,
};

verus! {

/// The vote at `pos`.
pub open spec fn parse_data(s: Seq<u8>, pos: int) -> Option<(AttestationData, int)> {
    match parse_u64(s, pos) {
        Some((slot, at1)) => match parse_u64(s, at1) {
            Some((index, at2)) => match parse_array32(s, at2) {
                Some((beacon_block_root, at3)) => match parse_u64(s, at3) {
                    Some((source_epoch, at4)) => match parse_array32(s, at4) {
                        Some((source_root, at5)) => match parse_u64(s, at5) {
                            Some((target_epoch, at6)) => match parse_array32(s, at6) {
                                Some((target_root, at7)) => Some(
                                    (
                                        AttestationData {
                                            slot,
                                            index,
                                            beacon_block_root,
                                            source: Checkpoint {
                                                epoch: source_epoch,
                                                root: source_root,
                                            },
                                            target: Checkpoint {
                                                epoch: target_epoch,
                                                root: target_root,
                                            },
                                        },
                                        at7,
                                    ),
                                ),
                                None => None,
                            },
                            None => None,
                        },
                        None => None,
                    },
                    None => None,
                },
                None => None,
            },
            None => None,
        },
        None => None,
    }
}

/// A vote that was written is read back.
pub proof fn lemma_parse_data(s: Seq<u8>, pos: int, data: AttestationData)
    requires
        sits_at(s, pos, encode_data(data)),
    ensures
        parse_data(s, pos) == Some((data, pos + 128)),
{
    lemma_auto_spec_u64_to_from_le_bytes();
    let slot = spec_u64_to_le_bytes(data.slot);
    let index = spec_u64_to_le_bytes(data.index);
    let root = data.beacon_block_root@;
    let source = encode_checkpoint(data.source);
    let target = encode_checkpoint(data.target);
    assert(encode_data(data) =~= slot + (index + (root + (source + target))));
    lemma_sits_at_split(s, pos, slot, index + (root + (source + target)));
    lemma_sits_at_split(s, pos + 8, index, root + (source + target));
    lemma_sits_at_split(s, pos + 16, root, source + target);
    lemma_sits_at_split(s, pos + 48, source, target);
    lemma_sits_at_split(s, pos + 48, spec_u64_to_le_bytes(data.source.epoch), data.source.root@);
    lemma_sits_at_split(s, pos + 88, spec_u64_to_le_bytes(data.target.epoch), data.target.root@);
    lemma_parse_u64(s, pos, data.slot);
    lemma_parse_u64(s, pos + 8, data.index);
    lemma_parse_array32(s, pos + 16, data.beacon_block_root);
    lemma_parse_u64(s, pos + 48, data.source.epoch);
    lemma_parse_array32(s, pos + 56, data.source.root);
    lemma_parse_u64(s, pos + 88, data.target.epoch);
    lemma_parse_array32(s, pos + 96, data.target.root);
}

/// The bytes of an aggregate signature: its point, then whether it is empty.
pub open spec fn encode_signature(signature: AggregateSignature) -> Seq<u8> {
    signature.aggregate_signature.bytes@ + encode_flag(signature.is_empty)
}

/// The aggregate signature at `pos`.
pub open spec fn parse_signature(s: Seq<u8>, pos: int) -> Option<(AggregateSignature, int)> {
    match parse_array96(s, pos) {
        Some((bytes, at1)) => match parse_flag(s, at1) {
            Some((is_empty, at2)) => Some(
                (
                    AggregateSignature {
                        aggregate_signature: RawSignature { bytes },
                        is_empty,
                    },
                    at2,
                ),
            ),
            None => None,
        },
        None => None,
    }
}

/// An aggregate signature that was written is read back.
pub proof fn lemma_parse_signature(s: Seq<u8>, pos: int, signature: AggregateSignature)
    requires
        sits_at(s, pos, encode_signature(signature)),
    ensures
        parse_signature(s, pos) == Some((signature, pos + 97)),
{
    lemma_sits_at_split(
        s,
        pos,
        signature.aggregate_signature.bytes@,
        encode_flag(signature.is_empty),
    );
    lemma_parse_array96(s, pos, signature.aggregate_signature.bytes);
    lemma_parse_flag(s, pos + 96, signature.is_empty);
}

/// The bytes of an attestation: its signers, its vote, its signature.
pub open spec fn encode_attestation(a: AttestationView) -> Seq<u8> {
    encode_bits(a.aggregation_bits) + encode_data(a.data) + encode_signature(a.signature)
}

/// The attestation at `pos`.
pub open spec fn parse_attestation(s: Seq<u8>, pos: int) -> Option<(AttestationView, int)> {
    match parse_bits(s, pos) {
        Some((aggregation_bits, at1)) => match parse_data(s, at1) {
            Some((data, at2)) => match parse_signature(s, at2) {
                Some((signature, at3)) => Some(
                    (AttestationView { aggregation_bits, data, signature }, at3),
                ),
                None => None,
            },
            None => None,
        },
        None => None,
    }
}

/// An attestation that was written is read back.
pub proof fn lemma_parse_attestation(s: Seq<u8>, pos: int, a: AttestationView)
    requires
        a.aggregation_bits.len() <= u64::MAX,
        sits_at(s, pos, encode_attestation(a)),
    ensures
        parse_attestation(s, pos) == Some((a, pos + encode_attestation(a).len())),
{
    let bits = encode_bits(a.aggregation_bits);
    let data = encode_data(a.data);
    let signature = encode_signature(a.signature);
    lemma_encode_data_len(a.data);
    assert(encode_attestation(a) =~= bits + (data + signature));
    lemma_sits_at_split(s, pos, bits, data + signature);
    lemma_sits_at_split(s, pos + bits.len(), data, signature);
    lemma_parse_bits(s, pos, a.aggregation_bits);
    lemma_parse_data(s, pos + bits.len(), a.data);
    lemma_parse_signature(s, pos + bits.len() + 128, a.signature);
}

/// The bytes of an indexed attestation: its signers, its vote, its signature.
pub open spec fn encode_indexed(a: IndexedAttestationView) -> Seq<u8> {
    encode_indices(a.attesting_indices) + encode_data(a.data) + encode_signature(a.signature)
}

/// The indexed attestation at `pos`.
pub open spec fn parse_indexed(s: Seq<u8>, pos: int) -> Option<(IndexedAttestationView, int)> {
    match parse_indices(s, pos) {
        Some((attesting_indices, at1)) => match parse_data(s, at1) {
            Some((data, at2)) => match parse_signature(s, at2) {
                Some((signature, at3)) => Some(
                    (IndexedAttestationView { attesting_indices, data, signature }, at3),
                ),
                None => None,
            },
            None => None,
        },
        None => None,
    }
}

/// An indexed attestation that was written is read back.
pub proof fn lemma_parse_indexed(s: Seq<u8>, pos: int, a: IndexedAttestationView)
    requires
        a.attesting_indices.len() <= u64::MAX,
        sits_at(s, pos, encode_indexed(a)),
    ensures
        parse_indexed(s, pos) == Some((a, pos + encode_indexed(a).len())),
{
    let indices = encode_indices(a.attesting_indices);
    let data = encode_data(a.data);
    let signature = encode_signature(a.signature);
    lemma_encode_data_len(a.data);
    assert(encode_indexed(a) =~= indices + (data + signature));
    lemma_sits_at_split(s, pos, indices, data + signature);
    lemma_sits_at_split(s, pos + indices.len(), data, signature);
    lemma_parse_indices(s, pos, a.attesting_indices);
    lemma_parse_data(s, pos + indices.len(), a.data);
    lemma_parse_signature(s, pos + indices.len() + 128, a.signature);
}

/// The bytes of a signed block header: the slot, the three roots, the
/// signature.
pub open spec fn encode_header(h: SignedBeaconBlockHeader) -> Seq<u8> {
    spec_u64_to_le_bytes(h.message.slot) + h.message.parent_root@ + h.message.state_root@
        + h.message.body_root@ + h.signature.bytes@
}

/// The signed block header at `pos`.
pub open spec fn parse_header(s: Seq<u8>, pos: int) -> Option<(SignedBeaconBlockHeader, int)> {
    match parse_u64(s, pos) {
        Some((slot, at1)) => match parse_array32(s, at1) {
            Some((parent_root, at2)) => match parse_array32(s, at2) {
                Some((state_root, at3)) => match parse_array32(s, at3) {
                    Some((body_root, at4)) => match parse_array96(s, at4) {
                        Some((bytes, at5)) => Some(
                            (
                                SignedBeaconBlockHeader {
                                    message: BeaconBlockHeader {
                                        slot,
                                        parent_root,
                                        state_root,
                                        body_root,
                                    },
                                    signature: RawSignature { bytes },
                                },
                                at5,
                            ),
                        ),
                        None => None,
                    },
                    None => None,
                },
                None => None,
            },
            None => None,
        },
        None => None,
    }
}

/// A signed block header that was written is read back.
pub proof fn lemma_parse_header(s: Seq<u8>, pos: int, h: SignedBeaconBlockHeader)
    requires
        sits_at(s, pos, encode_header(h)),
    ensures
        parse_header(s, pos) == Some((h, pos + 200)),
        encode_header(h).len() == 200,
{
    lemma_auto_spec_u64_to_from_le_bytes();
    let slot = spec_u64_to_le_bytes(h.message.slot);
    let parent = h.message.parent_root@;
    let state = h.message.state_root@;
    let body = h.message.body_root@;
    let signature = h.signature.bytes@;
    assert(encode_header(h) =~= slot + (parent + (state + (body + signature))));
    lemma_sits_at_split(s, pos, slot, parent + (state + (body + signature)));
    lemma_sits_at_split(s, pos + 8, parent, state + (body + signature));
    lemma_sits_at_split(s, pos + 40, state, body + signature);
    lemma_sits_at_split(s, pos + 72, body, signature);
    lemma_parse_u64(s, pos, h.message.slot);
    lemma_parse_array32(s, pos + 8, h.message.parent_root);
    lemma_parse_array32(s, pos + 40, h.message.state_root);
    lemma_parse_array32(s, pos + 72, h.message.body_root);
    lemma_parse_array96(s, pos + 104, h.signature.bytes);
}

/// The bytes of a proposer slashing under its key: the key, the proposer, the
/// two headers.
pub open spec fn encode_proposer_entry(entry: (u64, ProposerSlashing)) -> Seq<u8> {
    spec_u64_to_le_bytes(entry.0) + spec_u64_to_le_bytes(entry.1.proposer_index) + encode_header(
        entry.1.signed_header_1,
    ) + encode_header(entry.1.signed_header_2)
}

/// The proposer slashing at `pos`, under its key.
pub open spec fn parse_proposer_entry(s: Seq<u8>, pos: int) -> Option<
    ((u64, ProposerSlashing), int),
> {
    match parse_u64(s, pos) {
        Some((key, at1)) => match parse_u64(s, at1) {
            Some((proposer_index, at2)) => match parse_header(s, at2) {
                Some((signed_header_1, at3)) => match parse_header(s, at3) {
                    Some((signed_header_2, at4)) => Some(
                        (
                            (
                                key,
                                ProposerSlashing {
                                    proposer_index,
                                    signed_header_1,
                                    signed_header_2,
                                },
                            ),
                            at4,
                        ),
                    ),
                    None => None,
                },
                None => None,
            },
            None => None,
        },
        None => None,
    }
}

/// A proposer slashing that was written is read back.
pub proof fn lemma_parse_proposer_entry(s: Seq<u8>, pos: int, entry: (u64, ProposerSlashing))
    requires
        sits_at(s, pos, encode_proposer_entry(entry)),
    ensures
        parse_proposer_entry(s, pos) == Some((entry, pos + encode_proposer_entry(entry).len())),
{
    lemma_auto_spec_u64_to_from_le_bytes();
    let key = spec_u64_to_le_bytes(entry.0);
    let proposer = spec_u64_to_le_bytes(entry.1.proposer_index);
    let first = encode_header(entry.1.signed_header_1);
    let second = encode_header(entry.1.signed_header_2);
    assert(encode_proposer_entry(entry) =~= key + (proposer + (first + second)));
    lemma_sits_at_split(s, pos, key, proposer + (first + second));
    lemma_sits_at_split(s, pos + 8, proposer, first + second);
    lemma_sits_at_split(s, pos + 16, first, second);
    lemma_parse_u64(s, pos, entry.0);
    lemma_parse_u64(s, pos + 8, entry.1.proposer_index);
    lemma_parse_header(s, pos + 16, entry.1.signed_header_1);
    lemma_parse_header(s, pos + 216, entry.1.signed_header_2);
}

/// The bytes of a voluntary exit under its key: the key, the epoch, the
/// validator, the signature.
pub open spec fn encode_exit_entry(entry: (u64, VoluntaryExit)) -> Seq<u8> {
    spec_u64_to_le_bytes(entry.0) + spec_u64_to_le_bytes(entry.1.epoch) + spec_u64_to_le_bytes(
        entry.1.validator_index,
    ) + entry.1.signature.bytes@
}

/// The voluntary exit at `pos`, under its key.
pub open spec fn parse_exit_entry(s: Seq<u8>, pos: int) -> Option<((u64, VoluntaryExit), int)> {
    match parse_u64(s, pos) {
        Some((key, at1)) => match parse_u64(s, at1) {
            Some((epoch, at2)) => match parse_u64(s, at2) {
                Some((validator_index, at3)) => match parse_array96(s, at3) {
                    Some((bytes, at4)) => Some(
                        (
                            (
                                key,
                                VoluntaryExit {
                                    epoch,
                                    validator_index,
                                    signature: RawSignature { bytes },
                                },
                            ),
                            at4,
                        ),
                    ),
                    None => None,
                },
                None => None,
            },
            None => None,
        },
        None => None,
    }
}

/// A voluntary exit that was written is read back.
pub proof fn lemma_parse_exit_entry(s: Seq<u8>, pos: int, entry: (u64, VoluntaryExit))
    requires
        sits_at(s, pos, encode_exit_entry(entry)),
    ensures
        parse_exit_entry(s, pos) == Some((entry, pos + encode_exit_entry(entry).len())),
{
    lemma_auto_spec_u64_to_from_le_bytes();
    let key = spec_u64_to_le_bytes(entry.0);
    let epoch = spec_u64_to_le_bytes(entry.1.epoch);
    let validator = spec_u64_to_le_bytes(entry.1.validator_index);
    let signature = entry.1.signature.bytes@;
    assert(encode_exit_entry(entry) =~= key + (epoch + (validator + signature)));
    lemma_sits_at_split(s, pos, key, epoch + (validator + signature));
    lemma_sits_at_split(s, pos + 8, epoch, validator + signature);
    lemma_sits_at_split(s, pos + 16, validator, signature);
    lemma_parse_u64(s, pos, entry.0);
    lemma_parse_u64(s, pos + 8, entry.1.epoch);
    lemma_parse_u64(s, pos + 16, entry.1.validator_index);
    lemma_parse_array96(s, pos + 24, entry.1.signature.bytes);
}

/// Reads a vote.
pub fn read_data(reader: &mut Reader) -> (r: Option<AttestationData>)
    requires
        old(reader).well_formed(),
    ensures
        final(reader).bytes@ == old(reader).bytes@,
        final(reader).well_formed(),
        match r {
            Some(data) => parse_data(old(reader).bytes@, old(reader).pos as int) == Some(
                (data, final(reader).pos as int),
            ),
            None => parse_data(old(reader).bytes@, old(reader).pos as int) is None,
        },
{
    let slot = reader.read_u64()?;
    let index = reader.read_u64()?;
    let beacon_block_root = reader.read_array32()?;
    let source_epoch = reader.read_u64()?;
    let source_root = reader.read_array32()?;
    let target_epoch = reader.read_u64()?;
    let target_root = reader.read_array32()?;
    Some(
        AttestationData {
            slot,
            index,
            beacon_block_root,
            source: Checkpoint { epoch: source_epoch, root: source_root },
            target: Checkpoint { epoch: target_epoch, root: target_root },
        },
    )
}

/// Appends a vote to `dst`.
pub fn write_data(dst: &mut Vec<u8>, data: &AttestationData)
    ensures
        final(dst)@ == old(dst)@ + encode_data(*data),
{
    append_u64(dst, data.slot);
    append_u64(dst, data.index);
    append_array(dst, &data.beacon_block_root);
    append_u64(dst, data.source.epoch);
    append_array(dst, &data.source.root);
    append_u64(dst, data.target.epoch);
    append_array(dst, &data.target.root);
    assert(dst@ =~= old(dst)@ + encode_data(*data));
}

/// Reads an aggregate signature.
pub fn read_signature(reader: &mut Reader) -> (r: Option<AggregateSignature>)
    requires
        old(reader).well_formed(),
    ensures
        final(reader).bytes@ == old(reader).bytes@,
        final(reader).well_formed(),
        match r {
            Some(signature) => parse_signature(old(reader).bytes@, old(reader).pos as int)
                == Some((signature, final(reader).pos as int)),
            None => parse_signature(old(reader).bytes@, old(reader).pos as int) is None,
        },
{
    let bytes = reader.read_array96()?;
    let is_empty = reader.read_flag()?;
    Some(AggregateSignature { aggregate_signature: RawSignature { bytes }, is_empty })
}

/// Appends an aggregate signature to `dst`.
pub fn write_signature(dst: &mut Vec<u8>, signature: &AggregateSignature)
    ensures
        final(dst)@ == old(dst)@ + encode_signature(*signature),
{
    append_array(dst, &signature.aggregate_signature.bytes);
    write_flag(dst, signature.is_empty);
    assert(dst@ =~= old(dst)@ + encode_signature(*signature));
}

/// Reads an attestation.
pub fn read_attestation(reader: &mut Reader) -> (r: Option<Attestation>)
    requires
        old(reader).well_formed(),
    ensures
        final(reader).bytes@ == old(reader).bytes@,
        final(reader).well_formed(),
        match r {
            Some(a) => parse_attestation(old(reader).bytes@, old(reader).pos as int) == Some(
                (a@, final(reader).pos as int),
            ),
            None => parse_attestation(old(reader).bytes@, old(reader).pos as int) is None,
        },
{
    let aggregation_bits = reader.read_bits()?;
    let data = read_data(reader)?;
    let signature = read_signature(reader)?;
    Some(Attestation { aggregation_bits, data, signature })
}

/// Appends an attestation to `dst`.
pub fn write_attestation(dst: &mut Vec<u8>, a: &Attestation)
    ensures
        final(dst)@ == old(dst)@ + encode_attestation(a@),
{
    write_bits(dst, &a.aggregation_bits);
    write_data(dst, &a.data);
    write_signature(dst, &a.signature);
    assert(dst@ =~= old(dst)@ + encode_attestation(a@));
}

/// Reads an indexed attestation.
pub fn read_indexed(reader: &mut Reader) -> (r: Option<IndexedAttestation>)
    requires
        old(reader).well_formed(),
    ensures
        final(reader).bytes@ == old(reader).bytes@,
        final(reader).well_formed(),
        match r {
            Some(a) => parse_indexed(old(reader).bytes@, old(reader).pos as int) == Some(
                (a@, final(reader).pos as int),
            ),
            None => parse_indexed(old(reader).bytes@, old(reader).pos as int) is None,
        },
{
    let attesting_indices = reader.read_indices()?;
    let data = read_data(reader)?;
    let signature = read_signature(reader)?;
    Some(IndexedAttestation { attesting_indices, data, signature })
}

/// Appends an indexed attestation to `dst`.
pub fn write_indexed(dst: &mut Vec<u8>, a: &IndexedAttestation)
    ensures
        final(dst)@ == old(dst)@ + encode_indexed(a@),
{
    write_indices(dst, &a.attesting_indices);
    write_data(dst, &a.data);
    write_signature(dst, &a.signature);
    assert(dst@ =~= old(dst)@ + encode_indexed(a@));
}

/// Reads a signed block header.
pub fn read_header(reader: &mut Reader) -> (r: Option<SignedBeaconBlockHeader>)
    requires
        old(reader).well_formed(),
    ensures
        final(reader).bytes@ == old(reader).bytes@,
        final(reader).well_formed(),
        match r {
            Some(h) => parse_header(old(reader).bytes@, old(reader).pos as int) == Some(
                (h, final(reader).pos as int),
            ),
            None => parse_header(old(reader).bytes@, old(reader).pos as int) is None,
        },
{
    let slot = reader.read_u64()?;
    let parent_root = reader.read_array32()?;
    let state_root = reader.read_array32()?;
    let body_root = reader.read_array32()?;
    let bytes = reader.read_array96()?;
    Some(
        SignedBeaconBlockHeader {
            message: BeaconBlockHeader { slot, parent_root, state_root, body_root },
            signature: RawSignature { bytes },
        },
    )
}

/// Appends a signed block header to `dst`.
pub fn write_header(dst: &mut Vec<u8>, h: &SignedBeaconBlockHeader)
    ensures
        final(dst)@ == old(dst)@ + encode_header(*h),
{
    append_u64(dst, h.message.slot);
    append_array(dst, &h.message.parent_root);
    append_array(dst, &h.message.state_root);
    append_array(dst, &h.message.body_root);
    append_array(dst, &h.signature.bytes);
    assert(dst@ =~= old(dst)@ + encode_header(*h));
}

/// Reads a proposer slashing under its key.
pub fn read_proposer_entry(reader: &mut Reader) -> (r: Option<(u64, ProposerSlashing)>)
    requires
        old(reader).well_formed(),
    ensures
        final(reader).bytes@ == old(reader).bytes@,
        final(reader).well_formed(),
        match r {
            Some(entry) => parse_proposer_entry(old(reader).bytes@, old(reader).pos as int)
                == Some((entry, final(reader).pos as int)),
            None => parse_proposer_entry(old(reader).bytes@, old(reader).pos as int) is None,
        },
{
    let key = reader.read_u64()?;
    let proposer_index = reader.read_u64()?;
    let signed_header_1 = read_header(reader)?;
    let signed_header_2 = read_header(reader)?;
    Some((key, ProposerSlashing { proposer_index, signed_header_1, signed_header_2 }))
}

/// Appends a proposer slashing under its key to `dst`.
pub fn write_proposer_entry(dst: &mut Vec<u8>, entry: &(u64, ProposerSlashing))
    ensures
        final(dst)@ == old(dst)@ + encode_proposer_entry(*entry),
{
    append_u64(dst, entry.0);
    append_u64(dst, entry.1.proposer_index);
    write_header(dst, &entry.1.signed_header_1);
    write_header(dst, &entry.1.signed_header_2);
    assert(dst@ =~= old(dst)@ + encode_proposer_entry(*entry));
}

/// Reads a voluntary exit under its key.
pub fn read_exit_entry(reader: &mut Reader) -> (r: Option<(u64, VoluntaryExit)>)
    requires
        old(reader).well_formed(),
    ensures
        final(reader).bytes@ == old(reader).bytes@,
        final(reader).well_formed(),
        match r {
            Some(entry) => parse_exit_entry(old(reader).bytes@, old(reader).pos as int) == Some(
                (entry, final(reader).pos as int),
            ),
            None => parse_exit_entry(old(reader).bytes@, old(reader).pos as int) is None,
        },
{
    let key = reader.read_u64()?;
    let epoch = reader.read_u64()?;
    let validator_index = reader.read_u64()?;
    let bytes = reader.read_array96()?;
    Some((key, VoluntaryExit { epoch, validator_index, signature: RawSignature { bytes } }))
}

/// Appends a voluntary exit under its key to `dst`.
pub fn write_exit_entry(dst: &mut Vec<u8>, entry: &(u64, VoluntaryExit))
    ensures
        final(dst)@ == old(dst)@ + encode_exit_entry(*entry),
{
    append_u64(dst, entry.0);
    append_u64(dst, entry.1.epoch);
    append_u64(dst, entry.1.validator_index);
    append_array(dst, &entry.1.signature.bytes);
    assert(dst@ =~= old(dst)@ + encode_exit_entry(*entry));
}

} // verus!
