//! Values the explorer stores, receives and publishes.

use vstd::prelude::*;
use vstd::utf8::encode_utf8;
use crate::common::{Address, Bytes32, duplicate_bytes, duplicate_strings, same_bytes32};
use crate::table::{TableKey, TableValue};

verus! {

/// Why an explorer entry point refused a call.
#[derive(Copy, Clone, Debug, PartialEq, Eq)]
pub enum Error {
    NotFound,
    Unauthorized,
    AlreadyExists,
    BelowFloor,
    ContractPaused,
    InvalidInput,
    Unsupported,
}

impl Error {
    /// The numeric code under which the error is reported to callers.
    pub open spec fn code_of(self) -> u32 {
        match self {
            Error::NotFound => 1,
            Error::Unauthorized => 2,
            Error::AlreadyExists => 3,
            Error::BelowFloor => 4,
            Error::ContractPaused => 5,
            Error::InvalidInput => 6,
            Error::Unsupported => 7,
        }
    }

    /// The numeric code under which the error is reported to callers.
    pub fn code(&self) -> (c: u32)
        ensures
            c == self.code_of(),
    {
        match self {
            Error::NotFound => 1,
            Error::Unauthorized => 2,
            Error::AlreadyExists => 3,
            Error::BelowFloor => 4,
            Error::ContractPaused => 5,
            Error::InvalidInput => 6,
            Error::Unsupported => 7,
        }
    }
}

/// Minimum allowed value for `max_events` (prevents accidental data loss).
pub const MIN_MAX_EVENTS: u32 = 1_000;

/// Default ring-buffer capacity used at init when the caller passes `0`.
pub const DEFAULT_MAX_EVENTS: u32 = 50_000;

/// Maximum number of events returned by a single `get_events` call.
pub const MAX_PAGE_SIZE: u32 = 500;

/// About one day of ledgers (ledgers close every ~5 s).
pub const LEDGERS_PER_DAY: u32 = 17_280;

/// Instance storage: bumped to this many ledgers ahead on every state-changing call.
pub const INSTANCE_BUMP_AMOUNT: u32 = 30 * LEDGERS_PER_DAY;

/// Instance storage: the bump applies once the remaining TTL drops below this.
pub const INSTANCE_LIFETIME_THRESHOLD: u32 = INSTANCE_BUMP_AMOUNT - LEDGERS_PER_DAY;

/// Registry entries (`Contract` / `ContractVersion`): bump horizon.
pub const REGISTRY_BUMP_AMOUNT: u32 = 90 * LEDGERS_PER_DAY;

/// Registry entries: the bump applies once the remaining TTL drops below this.
pub const REGISTRY_LIFETIME_THRESHOLD: u32 = REGISTRY_BUMP_AMOUNT - LEDGERS_PER_DAY;

/// Event-log ring-buffer slots: bump horizon.
pub const EVENT_BUMP_AMOUNT: u32 = 7 * LEDGERS_PER_DAY;

/// Event-log ring-buffer slots: the bump applies once the remaining TTL drops below this.
pub const EVENT_LIFETIME_THRESHOLD: u32 = EVENT_BUMP_AMOUNT - LEDGERS_PER_DAY;

/// Version marker carried by every published event.
pub const EVENT_VERSION: u32 = 1;

/// Longest accepted contract name, in UTF-8 bytes.
pub const MAX_NAME_LEN: usize = 64;

/// Longest accepted description (of a contract or of a function), in UTF-8 bytes.
pub const MAX_DESCRIPTION_LEN: usize = 1_024;

/// Most functions a contract's metadata may describe.
pub const MAX_FUNCTIONS: usize = 64;

/// Most parameters a described function may have.
pub const MAX_PARAMS: usize = 32;

/// Key of one historical ABI version of a registered contract.
#[derive(Clone, Debug, PartialEq, Eq)]
pub struct VersionKey {
    pub contract_id: Bytes32,
    pub abi_version: u32,
}

impl View for VersionKey {
    type V = (Seq<u8>, u32);

    open spec fn view(&self) -> (Seq<u8>, u32) {
        (self.contract_id@, self.abi_version)
    }
}

impl TableKey for VersionKey {
    fn same_key(&self, other: &VersionKey) -> (r: bool) {
        same_bytes32(&self.contract_id, &other.contract_id) && self.abi_version
            == other.abi_version
    }

    fn copy_key(&self) -> (r: VersionKey) {
        VersionKey { contract_id: self.contract_id, abi_version: self.abi_version }
    }
}

/// The storage entries the explorer keeps.
#[derive(Clone, Debug, PartialEq, Eq)]
pub enum DataKey {
    Admin,
    /// Address nominated by the current admin via `transfer_admin`, pending
    /// its own `accept_admin` call. Absent when there is no pending transfer.
    PendingAdmin,
    Contract(Bytes32),
    /// One slot of the event ring buffer.
    EventLog(u64),
    EventSeq,
    MaxEvents,
    Paused,
    ContractVersion(VersionKey),
}

/// One parameter of a described function.
#[derive(Clone, Debug, PartialEq, Eq)]
pub struct ParamDef {
    pub name: String,
    pub kind: String,
}

/// Abstract value of a [`ParamDef`].
pub struct ParamDefView {
    pub name: Seq<char>,
    pub kind: Seq<char>,
}

impl View for ParamDef {
    type V = ParamDefView;

    open spec fn view(&self) -> ParamDefView {
        ParamDefView { name: self.name@, kind: self.kind@ }
    }
}

impl ParamDef {
    /// An identical copy.
    pub fn duplicate(&self) -> (r: ParamDef)
        ensures
            r == *self,
            r@ == self@,
    {
        ParamDef { name: self.name.clone(), kind: self.kind.clone() }
    }
}

/// The abstract values of a sequence of parameters.
pub open spec fn params_view(ps: Seq<ParamDef>) -> Seq<ParamDefView> {
    ps.map_values(|p: ParamDef| p@)
}

/// The abstract values of a sequence of texts.
pub open spec fn texts_view(ts: Seq<String>) -> Seq<Seq<char>> {
    ts.map_values(|t: String| t@)
}

/// Abstract value of a [`FunctionAbi`].
pub struct FunctionAbiView {
    pub name: Seq<char>,
    pub description: Seq<char>,
    pub params: Seq<ParamDefView>,
}

/// Describes one callable function so the explorer can decode calls.
#[derive(Clone, Debug, PartialEq, Eq)]
pub struct FunctionAbi {
    pub name: String,
    pub description: String,
    pub params: Vec<ParamDef>,
}

impl View for FunctionAbi {
    type V = FunctionAbiView;

    open spec fn view(&self) -> FunctionAbiView {
        FunctionAbiView {
            name: self.name@,
            description: self.description@,
            params: params_view(self.params@),
        }
    }
}

impl FunctionAbi {
    /// A copy with the same abstract value.
    pub fn duplicate(&self) -> (r: FunctionAbi)
        ensures
            r@ == self@,
    {
        let mut params: Vec<ParamDef> = Vec::new();
        let mut i: usize = 0;
        while i < self.params.len()
            invariant
                i <= self.params@.len(),
                params@ == self.params@.subrange(0, i as int),
            decreases self.params@.len() - i,
        {
            params.push(self.params[i].duplicate());
            i = i + 1;
            assert(params@ =~= self.params@.subrange(0, i as int));
        }
        assert(self.params@.subrange(0, self.params@.len() as int) =~= self.params@);
        assert(params_view(params@) =~= params_view(self.params@));
        FunctionAbi { name: self.name.clone(), description: self.description.clone(), params }
    }
}

/// Abstract value of a [`ContractMeta`].
pub struct ContractMetaView {
    pub version: u32,
    pub abi_version: u32,
    pub min_ledger: u32,
    pub name: Seq<char>,
    pub description: Seq<char>,
    pub functions: Seq<FunctionAbiView>,
    pub registered_by: Seq<char>,
}

/// ABI-like metadata for a registered contract.
#[derive(Clone, Debug, PartialEq, Eq)]
pub struct ContractMeta {
    /// Schema version for forward compatibility.
    pub version: u32,
    /// Monotonic ABI version; incremented on every `update_contract` call.
    pub abi_version: u32,
    /// Ledger sequence at which this ABI version was written.
    pub min_ledger: u32,
    pub name: String,
    pub description: String,
    pub functions: Vec<FunctionAbi>,
    pub registered_by: Address,
}

/// The abstract values of a sequence of function descriptions.
pub open spec fn functions_view(fs: Seq<FunctionAbi>) -> Seq<FunctionAbiView> {
    fs.map_values(|f: FunctionAbi| f@)
}

impl View for ContractMeta {
    type V = ContractMetaView;

    open spec fn view(&self) -> ContractMetaView {
        ContractMetaView {
            version: self.version,
            abi_version: self.abi_version,
            min_ledger: self.min_ledger,
            name: self.name@,
            description: self.description@,
            functions: functions_view(self.functions@),
            registered_by: self.registered_by@,
        }
    }
}

impl ContractMeta {
    /// A copy with the same abstract value.
    pub fn duplicate(&self) -> (r: ContractMeta)
        ensures
            r@ == self@,
    {
        let mut functions: Vec<FunctionAbi> = Vec::new();
        let mut i: usize = 0;
        while i < self.functions.len()
            invariant
                i <= self.functions@.len(),
                functions@.len() == i,
                forall|j: int| 0 <= j < i ==> (#[trigger] functions@[j])@ == self.functions@[j]@,
            decreases self.functions@.len() - i,
        {
            functions.push(self.functions[i].duplicate());
            i = i + 1;
        }
        assert(functions_view(functions@) =~= functions_view(self.functions@));
        ContractMeta {
            version: self.version,
            abi_version: self.abi_version,
            min_ledger: self.min_ledger,
            name: self.name.clone(),
            description: self.description.clone(),
            functions,
            registered_by: self.registered_by.duplicate(),
        }
    }

    /// Whether the metadata meets the field constraints (see [`meta_is_valid`]).
    pub fn is_valid(&self) -> (b: bool)
        ensures
            b == meta_is_valid(self@),
    {
        if self.name.as_str().is_empty() || self.name.as_str().len() > MAX_NAME_LEN {
            return false;
        }
        if self.description.as_str().len() > MAX_DESCRIPTION_LEN {
            return false;
        }
        if self.functions.len() > MAX_FUNCTIONS {
            return false;
        }
        let mut i: usize = 0;
        while i < self.functions.len()
            invariant
                i <= self.functions@.len(),
                forall|j: int| 0 <= j < i ==> function_is_valid(#[trigger] self.functions@[j]@),
            decreases self.functions@.len() - i,
        {
            if !self.functions[i].is_valid() {
                assert(!function_is_valid(functions_view(self.functions@)[i as int]));
                return false;
            }
            i = i + 1;
        }
        true
    }
}

impl FunctionAbi {
    /// Whether the description meets the field constraints (see [`function_is_valid`]).
    pub fn is_valid(&self) -> (b: bool)
        ensures
            b == function_is_valid(self@),
    {
        if self.name.as_str().is_empty() || self.description.as_str().len() > MAX_DESCRIPTION_LEN
            || self.params.len() > MAX_PARAMS {
            return false;
        }
        let mut i: usize = 0;
        while i < self.params.len()
            invariant
                i <= self.params@.len(),
                forall|j: int| 0 <= j < i ==> param_is_valid(#[trigger] self.params@[j]@),
            decreases self.params@.len() - i,
        {
            if self.params[i].name.as_str().is_empty() || self.params[i].kind.as_str().is_empty() {
                assert(!param_is_valid(params_view(self.params@)[i as int]));
                return false;
            }
            i = i + 1;
        }
        true
    }
}

/// Length of a text in bytes of its UTF-8 encoding, as a machine word (a
/// text held in memory is never longer than a machine word can count).
pub open spec fn utf8_len(s: Seq<char>) -> usize {
    encode_utf8(s).len() as usize
}

/// A parameter needs a non-empty name and a non-empty kind.
pub open spec fn param_is_valid(p: ParamDefView) -> bool {
    p.name.len() > 0 && p.kind.len() > 0
}

/// A function needs a non-empty name, a description of at most
/// [`MAX_DESCRIPTION_LEN`] bytes, at most [`MAX_PARAMS`] parameters, and
/// valid parameters.
pub open spec fn function_is_valid(f: FunctionAbiView) -> bool {
    &&& f.name.len() > 0
    &&& utf8_len(f.description) <= MAX_DESCRIPTION_LEN
    &&& f.params.len() <= MAX_PARAMS
    &&& forall|j: int| 0 <= j < f.params.len() ==> param_is_valid(#[trigger] f.params[j])
}

/// Metadata needs a name of 1 to [`MAX_NAME_LEN`] bytes, a description of
/// at most [`MAX_DESCRIPTION_LEN`] bytes, at most [`MAX_FUNCTIONS`]
/// functions, and valid function descriptions.
pub open spec fn meta_is_valid(m: ContractMetaView) -> bool {
    &&& m.name.len() > 0
    &&& utf8_len(m.name) <= MAX_NAME_LEN
    &&& utf8_len(m.description) <= MAX_DESCRIPTION_LEN
    &&& m.functions.len() <= MAX_FUNCTIONS
    &&& forall|j: int| 0 <= j < m.functions.len() ==> function_is_valid(#[trigger] m.functions[j])
}

impl TableValue for ContractMeta {
    fn copy_value(&self) -> (r: ContractMeta) {
        self.duplicate()
    }
}

/// Whether two texts hold the same characters.
fn same_text(a: &String, b: &String) -> (r: bool)
    ensures
        r == (a@ == b@),
{
    *a == *b
}

/// Whether two byte vectors hold the same bytes.
fn same_bytes(a: &Vec<u8>, b: &Vec<u8>) -> (r: bool)
    ensures
        r == (a@ == b@),
{
    if a.len() != b.len() {
        return false;
    }
    let mut i: usize = 0;
    while i < a.len()
        invariant
            a@.len() == b@.len(),
            i <= a@.len(),
            forall|j: int| 0 <= j < i ==> a@[j] == b@[j],
        decreases a@.len() - i,
    {
        if a[i] != b[i] {
            return false;
        }
        i = i + 1;
    }
    assert(a@ =~= b@);
    true
}

/// Whether two vectors of texts hold the same texts.
fn same_texts(a: &Vec<String>, b: &Vec<String>) -> (r: bool)
    ensures
        r == (texts_view(a@) == texts_view(b@)),
{
    if a.len() != b.len() {
        return false;
    }
    let mut i: usize = 0;
    while i < a.len()
        invariant
            a@.len() == b@.len(),
            i <= a@.len(),
            forall|j: int| 0 <= j < i ==> (#[trigger] a@[j])@ == b@[j]@,
        decreases a@.len() - i,
    {
        if !same_text(&a[i], &b[i]) {
            assert(texts_view(a@)[i as int] != texts_view(b@)[i as int]);
            return false;
        }
        i = i + 1;
    }
    assert(texts_view(a@) =~= texts_view(b@));
    true
}

impl ParamDef {
    /// Whether `self` and `other` have the same abstract value.
    pub fn same_as(&self, other: &ParamDef) -> (r: bool)
        ensures
            r == (self@ == other@),
    {
        same_text(&self.name, &other.name) && same_text(&self.kind, &other.kind)
    }
}

impl FunctionAbi {
    /// Whether `self` and `other` have the same abstract value.
    pub fn same_as(&self, other: &FunctionAbi) -> (r: bool)
        ensures
            r == (self@ == other@),
    {
        if !same_text(&self.name, &other.name) || !same_text(&self.description, &other.description)
            || self.params.len() != other.params.len() {
            proof {
                if self.params@.len() != other.params@.len() {
                    assert(params_view(self.params@).len() != params_view(other.params@).len());
                }
            }
            return false;
        }
        let mut i: usize = 0;
        while i < self.params.len()
            invariant
                self.params@.len() == other.params@.len(),
                i <= self.params@.len(),
                forall|j: int| 0 <= j < i ==> (#[trigger] self.params@[j])@ == other.params@[j]@,
            decreases self.params@.len() - i,
        {
            if !self.params[i].same_as(&other.params[i]) {
                assert(params_view(self.params@)[i as int] != params_view(other.params@)[i as int]);
                return false;
            }
            i = i + 1;
        }
        assert(params_view(self.params@) =~= params_view(other.params@));
        true
    }
}

impl ContractMeta {
    /// Whether `self` and `other` have the same abstract value.
    pub fn same_as(&self, other: &ContractMeta) -> (r: bool)
        ensures
            r == (self@ == other@),
    {
        if self.version != other.version || self.abi_version != other.abi_version
            || self.min_ledger != other.min_ledger || !same_text(&self.name, &other.name)
            || !same_text(&self.description, &other.description)
            || !self.registered_by.same_as(&other.registered_by)
            || self.functions.len() != other.functions.len() {
            proof {
                if self.functions@.len() != other.functions@.len() {
                    assert(functions_view(self.functions@).len() != functions_view(
                        other.functions@,
                    ).len());
                }
            }
            return false;
        }
        let mut i: usize = 0;
        while i < self.functions.len()
            invariant
                self.functions@.len() == other.functions@.len(),
                i <= self.functions@.len(),
                forall|j: int|
                    0 <= j < i ==> (#[trigger] self.functions@[j])@ == other.functions@[j]@,
            decreases self.functions@.len() - i,
        {
            if !self.functions[i].same_as(&other.functions[i]) {
                assert(functions_view(self.functions@)[i as int] != functions_view(
                    other.functions@,
                )[i as int]);
                return false;
            }
            i = i + 1;
        }
        assert(functions_view(self.functions@) =~= functions_view(other.functions@));
        true
    }
}

/// Abstract value of a [`DecodedEvent`].
pub struct DecodedEventView {
    pub seq: u64,
    pub contract_id: Seq<u8>,
    pub function: Seq<char>,
    pub ledger: u32,
    pub description: Seq<char>,
    pub raw_topics: Seq<Seq<char>>,
    pub raw_data: Seq<u8>,
}

/// A decoded, human-readable event stored in the ring buffer.
#[derive(Clone, Debug, PartialEq, Eq)]
pub struct DecodedEvent {
    pub seq: u64,
    pub contract_id: Bytes32,
    pub function: String,
    pub ledger: u32,
    pub description: String,
    pub raw_topics: Vec<String>,
    pub raw_data: Vec<u8>,
}

impl View for DecodedEvent {
    type V = DecodedEventView;

    open spec fn view(&self) -> DecodedEventView {
        DecodedEventView {
            seq: self.seq,
            contract_id: self.contract_id@,
            function: self.function@,
            ledger: self.ledger,
            description: self.description@,
            raw_topics: texts_view(self.raw_topics@),
            raw_data: self.raw_data@,
        }
    }
}

impl DecodedEvent {
    /// A copy with the same abstract value.
    pub fn duplicate(&self) -> (r: DecodedEvent)
        ensures
            r@ == self@,
    {
        DecodedEvent {
            seq: self.seq,
            contract_id: self.contract_id,
            function: self.function.clone(),
            ledger: self.ledger,
            description: self.description.clone(),
            raw_topics: duplicate_strings(&self.raw_topics),
            raw_data: duplicate_bytes(&self.raw_data),
        }
    }
}

impl DecodedEvent {
    /// Whether `self` and `other` have the same abstract value.
    pub fn same_as(&self, other: &DecodedEvent) -> (r: bool)
        ensures
            r == (self@ == other@),
    {
        self.seq == other.seq && same_bytes32(&self.contract_id, &other.contract_id) && same_text(
            &self.function,
            &other.function,
        ) && self.ledger == other.ledger && same_text(&self.description, &other.description)
            && same_texts(&self.raw_topics, &other.raw_topics) && same_bytes(
            &self.raw_data,
            &other.raw_data,
        )
    }
}

impl TableValue for DecodedEvent {
    fn copy_value(&self) -> (r: DecodedEvent) {
        self.duplicate()
    }
}

/// Abstract value of an [`EventInput`].
pub struct EventInputView {
    pub contract_id: Seq<u8>,
    pub function: Seq<char>,
    pub ledger: u32,
    pub description: Seq<char>,
    pub raw_topics: Seq<Seq<char>>,
    pub raw_data: Seq<u8>,
}

/// Event submission parameters.
#[derive(Clone, Debug, PartialEq, Eq)]
pub struct EventInput {
    pub contract_id: Bytes32,
    pub function: String,
    pub ledger: u32,
    pub description: String,
    pub raw_topics: Vec<String>,
    pub raw_data: Vec<u8>,
}

impl View for EventInput {
    type V = EventInputView;

    open spec fn view(&self) -> EventInputView {
        EventInputView {
            contract_id: self.contract_id@,
            function: self.function@,
            ledger: self.ledger,
            description: self.description@,
            raw_topics: texts_view(self.raw_topics@),
            raw_data: self.raw_data@,
        }
    }
}

impl EventInputView {
    /// The stored form of this input under sequence number `seq`.
    pub open spec fn stored_as(self, seq: u64) -> DecodedEventView {
        DecodedEventView {
            seq,
            contract_id: self.contract_id,
            function: self.function,
            ledger: self.ledger,
            description: self.description,
            raw_topics: self.raw_topics,
            raw_data: self.raw_data,
        }
    }
}

/// What the explorer publishes to the ledger's event stream.  Every payload
/// also carries [`EVENT_VERSION`] first.
#[derive(Clone, Debug, PartialEq, Eq)]
pub enum ExplorerEvent {
    /// `adm_nom`: `caller` nominated `new_admin`.
    AdminNominated { caller: Address, new_admin: Address },
    /// `adm_acc`: `caller` accepted its nomination.
    AdminAccepted { caller: Address },
    /// `adm_cncl`: `caller` withdrew the pending nomination.
    AdminTransferCancelled { caller: Address },
    /// `paused`.
    Paused,
    /// `unpaused`.
    Unpaused,
    /// `upgrade`: the contract code was replaced by `new_wasm_hash`.
    Upgraded { new_wasm_hash: Bytes32 },
    /// `resize`: the ring buffer was rebuilt from `old_max` to `new_max` slots.
    Resized { old_max: u32, new_max: u32 },
    /// `c_reg`.
    ContractRegistered {
        contract_id: Bytes32,
        registered_by: Address,
        contract_version: u32,
        ledger: u32,
        name: String,
    },
    /// `c_abiu`.
    AbiUpdated { contract_id: Bytes32, old_abi_version: u32, new_abi_version: u32, ledger: u32 },
    /// `c_upd`.
    ContractUpdated {
        contract_id: Bytes32,
        caller: Address,
        old_contract_version: u32,
        new_contract_version: u32,
        ledger: u32,
    },
    /// `c_dereg`.
    ContractDeregistered { contract_id: Bytes32, caller: Address, ledger: u32 },
    /// `ev_sub`.
    EventSubmitted { contract_id: Bytes32, function: String, seq: u64, ledger: u32 },
    /// `cap_hit`: submitting `seq` evicted `evicted_seq`.
    CapacityHit { evicted_seq: u64, seq: u64 },
    /// `decoded`.
    Decoded { contract_id: Bytes32, function: String, description: String },
}

} // verus!
