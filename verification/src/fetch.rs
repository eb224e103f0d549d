use vstd::prelude::*;
use crate::codec::{decode_records, encode_records, lemma_decode_encode, spec_decode, spec_encode};
use crate::keys::{derive_cache_key, spec_cache_key};
use crate::normalize::{
    lemma_selector_well_formedness, normalize, spec_normalize, struct_views, RawStructure,
    RawStructureModel,
};
use crate::records::{views_of, FetchError, InterfaceRecord, RecordModel};

verus! {

/// Where one fetch stands. Each non-terminal state names the one outside step
/// the caller must perform next: look the key up in the store, run the
/// decompilation engine, or persist the payload under the key.
pub enum FetchState {
    Lookup { key: String },
    Decompile { key: String },
    Persist { key: String, payload: String, records: Vec<InterfaceRecord> },
    Done { result: Result<Vec<InterfaceRecord>, FetchError> },
}

/// What the outside step reported back.
pub enum FetchEvent {
    LookupHit { text: String },
    LookupMiss,
    Decompiled { raw: Vec<RawStructure> },
    EngineFailed,
    PersistOk,
    PersistFailed,
}

/// The events each state can take.
pub open spec fn event_fits(state: FetchState, event: FetchEvent) -> bool {
    match state {
        FetchState::Lookup { .. } => event is LookupHit || event is LookupMiss,
        FetchState::Decompile { .. } => event is Decompiled || event is EngineFailed,
        FetchState::Persist { .. } => event is PersistOk || event is PersistFailed,
        FetchState::Done { .. } => false,
    }
}

/// Begin a fetch: derive the stable key for the bytecode. The caller should
/// next look that key up in the store.
pub fn start_fetch(bytecode: &str) -> (s: FetchState)
    ensures
        s matches FetchState::Lookup { key } && key@ == spec_cache_key(bytecode@),
{
    FetchState::Lookup { key: derive_cache_key(bytecode) }
}

/// Advance the fetch by one outside event: a hit returns the decoded records
/// (or reports a corrupt entry); a miss asks for decompilation; a successful
/// decompilation is normalized and its payload readied for persisting; the
/// engine's failure, a malformed selector and a rejected write each end the
/// fetch with the matching error, and a completed write returns the records.
pub fn fetch_step(state: FetchState, event: FetchEvent) -> (next: FetchState)
    requires
        event_fits(state, event),
    ensures
        event matches FetchEvent::LookupHit { text } ==> (state is Lookup ==> (match spec_decode(
            text@,
        ) {
            Some(models) => next matches FetchState::Done { result: Ok(v) } && views_of(v@)
                == models,
            None => next == (FetchState::Done {
                result: Err::<Vec<InterfaceRecord>, FetchError>(FetchError::StoreReadFailed),
            }),
        })),
        state matches FetchState::Lookup { key } ==> (event is LookupMiss ==> next == (
        FetchState::Decompile { key })),
        state matches FetchState::Decompile { key } ==> (event matches FetchEvent::Decompiled {
            raw,
        } ==> (match spec_normalize(struct_views(raw@)) {
            Some(models) => next matches FetchState::Persist { key: k, payload, records } && k
                == key && views_of(records@) == models && payload@ == spec_encode(models),
            None => next == (FetchState::Done {
                result: Err::<Vec<InterfaceRecord>, FetchError>(FetchError::MalformedSelector),
            }),
        })),
        state is Decompile && event is EngineFailed ==> next == (FetchState::Done {
            result: Err::<Vec<InterfaceRecord>, FetchError>(FetchError::DecompileFailed),
        }),
        state matches FetchState::Persist { key, payload, records } ==> (event is PersistOk
            ==> next == (FetchState::Done { result: Ok(records) })),
        state is Persist && event is PersistFailed ==> next == (FetchState::Done {
            result: Err::<Vec<InterfaceRecord>, FetchError>(FetchError::StoreWriteFailed),
        }),
{
    match (state, event) {
        (FetchState::Lookup { key: _ }, FetchEvent::LookupHit { text }) => {
            match decode_records(text.as_str()) {
                Some(v) => FetchState::Done { result: Ok(v) },
                None => FetchState::Done { result: Err(FetchError::StoreReadFailed) },
            }
        },
        (FetchState::Lookup { key }, FetchEvent::LookupMiss) => FetchState::Decompile { key },
        (FetchState::Decompile { key }, FetchEvent::Decompiled { raw }) => {
            match normalize(&raw) {
                Ok(records) => {
                    let payload = encode_records(&records);
                    FetchState::Persist { key, payload, records }
                },
                Err(e) => FetchState::Done { result: Err(e) },
            }
        },
        (FetchState::Decompile { key: _ }, FetchEvent::EngineFailed) => FetchState::Done {
            result: Err(FetchError::DecompileFailed),
        },
        (FetchState::Persist { key: _, payload: _, records }, FetchEvent::PersistOk) => {
            FetchState::Done { result: Ok(records) }
        },
        (FetchState::Persist { key: _, payload: _, records: _ }, FetchEvent::PersistFailed) => {
            FetchState::Done { result: Err(FetchError::StoreWriteFailed) }
        },
        (s, _) => s,
    }
}

/// Cache equivalence: reading back the payload that a miss persisted yields,
/// field for field, the records that the miss itself returned. With the key's
/// stability, a later hit on the same bytecode therefore equals the fresh
/// miss-path computation.
pub proof fn lemma_cache_equivalence(raw: Seq<RawStructureModel>, records: Seq<RecordModel>)
    requires
        spec_normalize(raw) == Some(records),
    ensures
        spec_decode(spec_encode(records)) == Some(records),
{
    lemma_selector_well_formedness(raw, records);
    lemma_decode_encode(records);
}

} // verus!
