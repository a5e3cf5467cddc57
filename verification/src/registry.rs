//! The registry of deployed contracts: for each address the contract's
//! name, its bytecode, and the storage partition bound to it.

use crate::messages::{Message, MessageView};
use crate::storage::{GasInfo, MyMockStorage, Order, KV};
use crate::storage::{bound_view, lookup, pair_views, storage_gas, value_view};
use crate::strmap::StrMap;
use crate::text::str_eq;
use vstd::prelude::*;
use vstd::slice::slice_to_vec;
use vstd::string::StringExecFns;

verus! {

/// What becomes of an address's partition when a contract is installed at
/// an address that was used before.
#[derive(Clone, Copy, Debug, PartialEq, Eq, Structural)]
pub enum ReinstallPolicy {
    /// The partition stays as it is.
    Preserve,
    /// The partition is emptied.
    Reset,
}

/// A deployed contract.
#[derive(Debug)]
pub struct ContractRecord {
    pub address: String,
    pub name: String,
    pub code: Vec<u8>,
}

/// Why the registry refuses a request.
#[derive(Debug)]
pub enum RegistryError {
    /// No contract is installed at the address.
    NotFound { address: String },
}

/// What the registry holds for one address.
#[derive(Debug)]
pub struct Slot {
    name: String,
    code: Vec<u8>,
    storage: MyMockStorage,
}

/// What the registry holds for one address, by its views.
pub ghost struct SlotView {
    pub name: Seq<char>,
    pub code: Seq<u8>,
    pub partition: Map<Seq<u8>, Seq<u8>>,
}

impl DeepView for Slot {
    type V = SlotView;

    closed spec fn deep_view(&self) -> SlotView {
        SlotView { name: self.name@, code: self.code@, partition: self.storage@ }
    }
}

/// The table of deployed contracts.
#[derive(Debug)]
pub struct Registry {
    slots: StrMap<Slot>,
    policy: ReinstallPolicy,
}

impl View for Registry {
    type V = Map<Seq<char>, SlotView>;

    closed spec fn view(&self) -> Map<Seq<char>, SlotView> {
        self.slots.deep_view()
    }
}

/// The table after a contract is installed at `address`: its record is the
/// new one; its partition is the one it had where the policy preserves it,
/// and empty otherwise.
pub open spec fn installed(
    table: Map<Seq<char>, SlotView>,
    policy: ReinstallPolicy,
    address: Seq<char>,
    name: Seq<char>,
    code: Seq<u8>,
) -> Map<Seq<char>, SlotView> {
    table.insert(
        address,
        SlotView {
            name,
            code,
            partition: if table.contains_key(address) && policy == ReinstallPolicy::Preserve {
                table[address].partition
            } else {
                Map::empty()
            },
        },
    )
}

/// The table after the partition of `address` is given the contents
/// `partition`; nothing else changes.
pub open spec fn with_partition(
    table: Map<Seq<char>, SlotView>,
    address: Seq<char>,
    partition: Map<Seq<u8>, Seq<u8>>,
) -> Map<Seq<char>, SlotView> {
    table.insert(
        address,
        SlotView { name: table[address].name, code: table[address].code, partition },
    )
}

/// What the partition of `address` holds under `key`; nothing where no
/// contract is installed there.
pub open spec fn stored(table: Map<Seq<char>, SlotView>, address: Seq<char>, key: Seq<u8>) -> Option<
    Seq<u8>,
> {
    if table.contains_key(address) {
        lookup(table[address].partition, key)
    } else {
        None
    }
}

/// The message installs a contract: it is an `init` message that names a
/// bytecode file.
pub open spec fn is_install(m: MessageView) -> bool {
    m.call_type == "init"@ && m.wasm_file.len() > 0
}

/// The bytecode read for each message of a batch, by its bytes; `None`
/// where none was read.
pub open spec fn image_views(images: Seq<Option<Vec<u8>>>) -> Seq<Option<Seq<u8>>> {
    images.map_values(|image: Option<Vec<u8>>| value_view(image))
}

/// The table after the contracts of a batch are installed, message by
/// message: each message that installs a contract, and for which bytecode
/// was read, installs it at the message's address under that address as
/// its name.
pub open spec fn batch_installed(
    table: Map<Seq<char>, SlotView>,
    policy: ReinstallPolicy,
    msgs: Seq<MessageView>,
    images: Seq<Option<Seq<u8>>>,
) -> Map<Seq<char>, SlotView>
    decreases msgs.len(),
{
    if msgs.len() == 0 {
        table
    } else {
        let before = batch_installed(table, policy, msgs.drop_last(), images);
        let i = msgs.len() - 1;
        if is_install(msgs[i]) && i < images.len() && images[i] is Some {
            installed(before, policy, msgs[i].contract_addr, msgs[i].contract_addr, images[i]->0)
        } else {
            before
        }
    }
}

/// The addresses at which the messages of a batch install a contract.
pub open spec fn install_addresses(msgs: Seq<MessageView>) -> Set<Seq<char>> {
    Set::new(
        |a: Seq<char>|
            exists|i: int|
                0 <= i < msgs.len() && is_install(#[trigger] msgs[i]) && msgs[i].contract_addr == a,
    )
}

/// Installing the contracts of a batch adds the batch's install addresses
/// to the table, and no other.
proof fn lemma_batch_addresses(
    table: Map<Seq<char>, SlotView>,
    policy: ReinstallPolicy,
    msgs: Seq<MessageView>,
    images: Seq<Option<Seq<u8>>>,
)
    requires
        forall|i: int|
            0 <= i < msgs.len() && is_install(#[trigger] msgs[i]) ==> i < images.len()
                && images[i] is Some,
    ensures
        batch_installed(table, policy, msgs, images).dom() == table.dom().union(
            install_addresses(msgs),
        ),
        table.dom().finite() ==> batch_installed(table, policy, msgs, images).dom().finite(),
    decreases msgs.len(),
{
    let after = batch_installed(table, policy, msgs, images);
    if msgs.len() == 0 {
        assert(after.dom() =~= table.dom().union(install_addresses(msgs)));
    } else {
        let rest = msgs.drop_last();
        let i = msgs.len() - 1;
        assert forall|j: int| 0 <= j < rest.len() && is_install(#[trigger] rest[j]) implies j
            < images.len() && images[j] is Some by {
            assert(rest[j] == msgs[j]);
        }
        lemma_batch_addresses(table, policy, rest, images);
        assert forall|a: Seq<char>| #[trigger]
            after.dom().contains(a) == table.dom().union(install_addresses(msgs)).contains(a) by {
            if install_addresses(rest).contains(a) {
                let j = choose|j: int|
                    0 <= j < rest.len() && is_install(#[trigger] rest[j]) && rest[j].contract_addr
                        == a;
                assert(msgs[j] == rest[j]);
            }
            if install_addresses(msgs).contains(a) {
                let j = choose|j: int|
                    0 <= j < msgs.len() && is_install(#[trigger] msgs[j]) && msgs[j].contract_addr
                        == a;
                if j < i {
                    assert(rest[j] == msgs[j]);
                }
            }
            if is_install(msgs[i]) && msgs[i].contract_addr == a {
                assert(install_addresses(msgs).contains(a));
            }
        }
        assert(after.dom() =~= table.dom().union(install_addresses(msgs)));
    }
}

/// Whenever the bytecode of every installing message of a batch could be
/// read, the contracts installed from the batch into an empty registry are
/// those at the distinct addresses of its installing messages, one for
/// each address.
pub proof fn lemma_installed_count(
    policy: ReinstallPolicy,
    msgs: Seq<MessageView>,
    images: Seq<Option<Seq<u8>>>,
)
    requires
        forall|i: int|
            0 <= i < msgs.len() && is_install(#[trigger] msgs[i]) ==> i < images.len()
                && images[i] is Some,
    ensures
        batch_installed(Map::empty(), policy, msgs, images).dom() == install_addresses(msgs),
        install_addresses(msgs).finite(),
        batch_installed(Map::empty(), policy, msgs, images).dom().len() == install_addresses(
            msgs,
        ).len(),
{
    lemma_batch_addresses(Map::empty(), policy, msgs, images);
    assert(Map::<Seq<char>, SlotView>::empty().dom().union(install_addresses(msgs))
        =~= install_addresses(msgs));
}

/// Partitions are isolated: a write to, or a removal from, the partition of
/// one address changes nothing in what the partition of another address
/// holds under any key, and neither does an install at the first address.
pub proof fn lemma_partitions_isolated(
    table: Map<Seq<char>, SlotView>,
    a: Seq<char>,
    b: Seq<char>,
    key: Seq<u8>,
    value: Seq<u8>,
    k: Seq<u8>,
)
    requires
        a != b,
    ensures
        stored(with_partition(table, a, table[a].partition.insert(key, value)), b, k) == stored(
            table,
            b,
            k,
        ),
        stored(with_partition(table, a, table[a].partition.remove(key)), b, k) == stored(
            table,
            b,
            k,
        ),
        forall|policy: ReinstallPolicy, name: Seq<char>, code: Seq<u8>|
            stored(#[trigger] installed(table, policy, a, name, code), b, k) == stored(table, b, k),
{
}

impl Registry {
    /// The registry is well formed: no address occurs twice, and every
    /// partition is well formed.
    pub closed spec fn wf(&self) -> bool {
        &&& self.slots.wf()
        &&& forall|i: int|
            0 <= i < self.slots.listing().len() ==> (#[trigger] self.slots.listing()[i]).1.storage.wf()
    }

    /// What is done with a partition on a second install.
    pub closed spec fn policy(&self) -> ReinstallPolicy {
        self.policy
    }

    /// An empty registry with the given policy.
    pub fn new(policy: ReinstallPolicy) -> (r: Self)
        ensures
            r.wf(),
            r@ == Map::<Seq<char>, SlotView>::empty(),
            r.policy() == policy,
    {
        Registry { slots: StrMap::new(), policy }
    }

    /// Installs a contract: binds a partition to `address` and records the
    /// contract's name and bytecode. At an address that was used before,
    /// the record is replaced, and the partition is kept or emptied as the
    /// policy says.
    pub fn install(&mut self, address: &str, name: &str, code: Vec<u8>)
        requires
            old(self).wf(),
        ensures
            final(self).wf(),
            final(self).policy() == old(self).policy(),
            final(self)@ == installed(old(self)@, old(self).policy(), address@, name@, code@),
    {
        let policy = self.policy;
        match self.slots.get_mut(address) {
            Some(slot) => {
                slot.name = String::from_str(name);
                slot.code = code;
                match policy {
                    ReinstallPolicy::Preserve => {},
                    ReinstallPolicy::Reset => {
                        slot.storage = MyMockStorage::empty();
                    },
                }
            },
            None => {
                let slot = Slot {
                    name: String::from_str(name),
                    code,
                    storage: MyMockStorage::empty(),
                };
                let key = String::from_str(address);
                proof {
                    lemma_slots_insert(self.slots, key, slot);
                }
                self.slots.insert(key, slot);
            },
        }
    }

    /// The number of addresses at which a contract is installed.
    pub fn len(&self) -> (n: usize)
        requires
            self.wf(),
        ensures
            self@.dom().finite(),
            n == self@.dom().len(),
    {
        self.slots.len()
    }

    /// Whether a contract is installed at `address`.
    pub fn contains(&self, address: &str) -> (r: bool)
        requires
            self.wf(),
        ensures
            r == self@.contains_key(address@),
    {
        self.slots.contains_key(address)
    }

    /// The record of the contract installed at `address`, from which a
    /// running instance is made; its partition stays in the registry.
    pub fn instantiate(&self, address: &str) -> (r: Result<ContractRecord, RegistryError>)
        requires
            self.wf(),
        ensures
            match r {
                Ok(record) => self@.contains_key(address@) && record.address@ == address@
                    && record.name@ == self@[address@].name && record.code@
                    == self@[address@].code,
                Err(RegistryError::NotFound { address: a }) => !self@.contains_key(address@) && a@
                    == address@,
            },
    {
        match self.slots.get(address) {
            Some(slot) => Ok(
                ContractRecord {
                    address: String::from_str(address),
                    name: slot.name.clone(),
                    code: slice_to_vec(slot.code.as_slice()),
                },
            ),
            None => Err(RegistryError::NotFound { address: String::from_str(address) }),
        }
    }

    /// Reads from the partition of `address`.
    pub fn get(&self, address: &str, key: &[u8]) -> (r: Result<
        (Option<Vec<u8>>, GasInfo),
        RegistryError,
    >)
        requires
            self.wf(),
        ensures
            match r {
                Ok(found) => self@.contains_key(address@) && value_view(found.0) == stored(
                    self@,
                    address@,
                    key@,
                ) && found.1 == storage_gas(),
                Err(RegistryError::NotFound { address: a }) => !self@.contains_key(address@) && a@
                    == address@,
            },
    {
        proof {
            self.slots.lemma_listing();
        }
        match self.slots.get(address) {
            Some(slot) => {
                proof {
                    lemma_slot_of(self.slots, address@);
                }
                Ok(slot.storage.get(key))
            },
            None => Err(RegistryError::NotFound { address: String::from_str(address) }),
        }
    }

    /// The entries of the partition of `address` whose key lies in the
    /// range from `start` to `end`, by ascending or descending key.
    pub fn range(
        &self,
        address: &str,
        start: Option<&[u8]>,
        end: Option<&[u8]>,
        order: Order,
    ) -> (r: Result<(Vec<KV>, GasInfo), RegistryError>)
        requires
            self.wf(),
        ensures
            match r {
                Ok(found) => self@.contains_key(address@) && pair_views(found.0@)
                    == crate::storage::ranged(
                    self@[address@].partition,
                    bound_view(start),
                    bound_view(end),
                    order,
                ) && found.1 == storage_gas(),
                Err(RegistryError::NotFound { address: a }) => !self@.contains_key(address@) && a@
                    == address@,
            },
    {
        match self.slots.get(address) {
            Some(slot) => {
                proof {
                    lemma_slot_of(self.slots, address@);
                }
                Ok(slot.storage.range(start, end, order))
            },
            None => Err(RegistryError::NotFound { address: String::from_str(address) }),
        }
    }

    /// Writes to the partition of `address`.
    pub fn set(&mut self, address: &str, key: &[u8], value: &[u8]) -> (r: Result<
        GasInfo,
        RegistryError,
    >)
        requires
            old(self).wf(),
        ensures
            final(self).wf(),
            final(self).policy() == old(self).policy(),
            match r {
                Ok(gas) => old(self)@.contains_key(address@) && final(self)@ == with_partition(
                    old(self)@,
                    address@,
                    old(self)@[address@].partition.insert(key@, value@),
                ) && gas == storage_gas(),
                Err(RegistryError::NotFound { address: a }) => !old(self)@.contains_key(address@)
                    && a@ == address@ && final(self)@ == old(self)@,
            },
    {
        proof {
            lemma_slot_of(self.slots, address@);
        }
        match self.slots.get_mut(address) {
            Some(slot) => Ok(slot.storage.set(key, value)),
            None => Err(RegistryError::NotFound { address: String::from_str(address) }),
        }
    }

    /// Removes from the partition of `address`.
    pub fn remove(&mut self, address: &str, key: &[u8]) -> (r: Result<GasInfo, RegistryError>)
        requires
            old(self).wf(),
        ensures
            final(self).wf(),
            final(self).policy() == old(self).policy(),
            match r {
                Ok(gas) => old(self)@.contains_key(address@) && final(self)@ == with_partition(
                    old(self)@,
                    address@,
                    old(self)@[address@].partition.remove(key@),
                ) && gas == storage_gas(),
                Err(RegistryError::NotFound { address: a }) => !old(self)@.contains_key(address@)
                    && a@ == address@ && final(self)@ == old(self)@,
            },
    {
        proof {
            lemma_slot_of(self.slots, address@);
        }
        match self.slots.get_mut(address) {
            Some(slot) => Ok(slot.storage.remove(key)),
            None => Err(RegistryError::NotFound { address: String::from_str(address) }),
        }
    }
}

impl Registry {
    /// Installs the contracts of a batch, message by message. `images`
    /// holds for each message the bytecode that was read for it, or `None`.
    /// Each `init` message that names a bytecode file, and for which
    /// bytecode was read, installs its contract at the message's address,
    /// under that address as its name.
    pub fn install_batch(&mut self, msgs: &Vec<Message>, images: &Vec<Option<Vec<u8>>>)
        requires
            old(self).wf(),
        ensures
            final(self).wf(),
            final(self).policy() == old(self).policy(),
            final(self)@ == batch_installed(
                old(self)@,
                old(self).policy(),
                crate::messages::message_views(msgs@),
                image_views(images@),
            ),
    {
        let ghost table = self@;
        let ghost policy = self.policy();
        let ghost mv = crate::messages::message_views(msgs@);
        let ghost iv = image_views(images@);
        let mut i: usize = 0;
        assert(mv.take(0) =~= Seq::<MessageView>::empty());
        while i < msgs.len()
            invariant
                i <= msgs@.len(),
                self.wf(),
                self.policy() == policy,
                mv == crate::messages::message_views(msgs@),
                iv == image_views(images@),
                self@ == batch_installed(table, policy, mv.take(i as int), iv),
            decreases msgs@.len() - i,
        {
            proof {
                assert(mv.take(i + 1).drop_last() =~= mv.take(i as int));
                assert(mv.take(i + 1)[i as int] == msgs@[i as int]@);
            }
            let m = &msgs[i];
            if str_eq(m.call_type.as_str(), "init") && !m.wasm_file.as_str().is_empty() && i
                < images.len() {
                match &images[i] {
                    Some(code) => {
                        self.install(
                            m.contract_addr.as_str(),
                            m.contract_addr.as_str(),
                            slice_to_vec(code.as_slice()),
                        );
                    },
                    None => {},
                }
            }
            i = i + 1;
        }
        assert(mv.take(i as int) =~= mv);
    }
}

/// The slot that a table lists for an address is the one its map answers
/// with.
proof fn lemma_slot_of(m: StrMap<Slot>, address: Seq<char>)
    requires
        m.wf(),
    ensures
        crate::strmap::names(m.listing(), address) ==> m.deep_view().contains_key(address)
            && m.deep_view()[address] == m.listing()[crate::strmap::place(
            m.listing(),
            address,
        )].1.deep_view(),
{
    m.lemma_listing();
    if crate::strmap::names(m.listing(), address) {
        let p = crate::strmap::place(m.listing(), address);
        assert(m.listing()[p].0@ == address);
    }
}

/// The partitions of a table stay well formed when a slot with a
/// well-formed partition is stored in it.
proof fn lemma_slots_insert(m: StrMap<Slot>, key: String, value: Slot)
    requires
        m.wf(),
        forall|i: int| 0 <= i < m.listing().len() ==> (#[trigger] m.listing()[i]).1.storage.wf(),
        value.storage.wf(),
    ensures
        forall|i: int|
            0 <= i < crate::strmap::listing_with(m.listing(), key, value).len() ==> (
            #[trigger] crate::strmap::listing_with(m.listing(), key, value)[i]).1.storage.wf(),
{
    let s = m.listing();
    let t = crate::strmap::listing_with(s, key, value);
    assert forall|i: int| 0 <= i < t.len() implies (#[trigger] t[i]).1.storage.wf() by {
        if crate::strmap::names(s, key@) {
            let p = crate::strmap::place(s, key@);
            if i != p {
                assert(t[i] == s[i]);
            }
        } else {
            if i < s.len() {
                assert(t[i] == s[i]);
            }
        }
    }
}

} // verus!
