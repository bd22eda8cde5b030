//! Mapping of the indexed fields of registered messages onto the dynamic
//! fields of the mutation index.
//!
//! The index can't add fields once created, so a number of fields of each
//! kind is allocated up front, and the indexed, sorted or text fields of each
//! registered message are given, in order, the next free field of the kind
//! that their type and options call for. Fields of nested messages are mapped
//! onto the main message, under a dotted name (`field.sub_field`).
use vstd::prelude::*;
use vstd::string::StringExecFns;

verus! {

/// Type of a field of a registered message.
#[derive(Debug)]
pub enum FieldType {
    String,
    Int32,
    Uint32,
    Int64,
    Uint64,
    DateTime,
    Reference,
    /// A message, by its full name.
    Message(String),
    Repeated(Box<FieldType>),
}

/// Field of a registered message, with its indexing options.
#[derive(Debug)]
pub struct FieldDescriptor {
    pub name: String,
    pub field_type: FieldType,
    pub indexed_flag: bool,
    pub sorted_flag: bool,
    pub text_flag: bool,
}

/// A registered message: its full name, its fields and its short names.
#[derive(Debug)]
pub struct MessageDescriptor {
    pub name: String,
    pub fields: Vec<FieldDescriptor>,
    pub short_names: Vec<String>,
}

/// Registered messages.
#[derive(Debug)]
pub struct Registry {
    pub messages: Vec<MessageDescriptor>,
}

/// Kind of a dynamic field of the index.
#[derive(Debug, Copy, Clone, PartialEq, Eq, Structural)]
pub enum DynamicFieldKind {
    Reference,
    Text,
    String,
    I64,
    I64Fast,
    U64,
    U64Fast,
}

/// Number of dynamic fields of each kind: those allocated in the index, or
/// those a message uses.
#[derive(Debug, Copy, Clone, PartialEq, Eq, Structural)]
pub struct DynamicFields {
    pub reference: usize,
    pub text: usize,
    pub string: usize,
    pub i64: usize,
    pub i64_fast: usize,
    pub u64: usize,
    pub u64_fast: usize,
}

/// Dynamic field onto which a message's field is mapped: the `slot`-th field
/// of its kind.
#[derive(Debug)]
pub struct MappedDynamicField {
    pub kind: DynamicFieldKind,
    pub slot: usize,
    pub field_type: FieldType,
    pub is_fast_field: bool,
}

/// A field to map, with its full dotted name.
pub struct FlatField {
    pub name: Seq<char>,
    pub field_type: FieldType,
    pub indexed: bool,
    pub sorted: bool,
    pub text: bool,
}

/// Fields mapping of a message being built.
pub struct MsgFieldsView {
    pub mapping: Map<Seq<char>, MappedDynamicField>,
    pub used: DynamicFields,
}

pub open spec fn has_index_flag(fd: FieldDescriptor) -> bool {
    fd.indexed_flag || fd.text_flag || fd.sorted_flag
}

/// Name of a field under the given prefix.
pub open spec fn field_path(prefix: Option<Seq<char>>, name: Seq<char>) -> Seq<char> {
    match prefix {
        Some(p) => p + seq!['.'] + name,
        None => name,
    }
}

/// Position of the first registered message with the given name.
pub open spec fn find_message(reg: Seq<MessageDescriptor>, name: Seq<char>) -> Option<int> {
    if exists|i: int| 0 <= i < reg.len() && #[trigger] reg[i].name@ == name {
        Some(choose|i: int| 0 <= i < reg.len() && #[trigger] reg[i].name@ == name
            && forall|j: int| 0 <= j < i ==> reg[j].name@ != name)
    } else {
        None
    }
}

/// Messages nested through fields with an index option rank below the
/// message holding them: no message holds itself, directly or not.
pub open spec fn nested_ranked(reg: Seq<MessageDescriptor>, rank: spec_fn(Seq<char>) -> nat) -> bool {
    forall|i: int, k: int| #![trigger reg[i].fields@[k]]
        0 <= i < reg.len() && 0 <= k < reg[i].fields@.len() && has_index_flag(reg[i].fields@[k]) ==> {
            match reg[i].fields@[k].field_type {
                FieldType::Message(t) => match find_message(reg, t@) {
                    Some(j) => rank(reg[j].name@) < rank(reg[i].name@),
                    None => true,
                },
                _ => true,
            }
        }
}

/// The registry's nested messages can all be mapped: mapping a message never
/// gets back to it.
pub open spec fn registry_acyclic(reg: Seq<MessageDescriptor>) -> bool {
    exists|rank: spec_fn(Seq<char>) -> nat| nested_ranked(reg, rank)
}

pub open spec fn registry_rank(reg: Seq<MessageDescriptor>) -> spec_fn(Seq<char>) -> nat {
    choose|rank: spec_fn(Seq<char>) -> nat| nested_ranked(reg, rank)
}

/// Fields to map for the first `n` fields of the `i`-th message, in order,
/// under the prefix.
pub open spec fn flatten_fields(
    reg: Seq<MessageDescriptor>,
    rank: spec_fn(Seq<char>) -> nat,
    i: int,
    prefix: Option<Seq<char>>,
    n: nat,
) -> Seq<FlatField>
    decreases rank(reg[i].name@), n, 1nat,
{
    if n == 0 {
        seq![]
    } else {
        flatten_fields(reg, rank, i, prefix, (n - 1) as nat) + field_entries(reg, rank, i, prefix, (n - 1) as nat)
    }
}

/// Fields to map for the `k`-th field of the `i`-th message under the
/// prefix: the field itself if it has an index option and holds a number, a
/// string or a reference; the fields of the registered message it holds if
/// it has an index option, under the field's name; none otherwise.
pub open spec fn field_entries(
    reg: Seq<MessageDescriptor>,
    rank: spec_fn(Seq<char>) -> nat,
    i: int,
    prefix: Option<Seq<char>>,
    k: nat,
) -> Seq<FlatField>
    decreases rank(reg[i].name@), k + 1, 0nat,
{
    let fd = reg[i].fields@[k as int];
    let path = field_path(prefix, fd.name@);
    if !has_index_flag(fd) {
        seq![]
    } else {
        match fd.field_type {
            FieldType::Message(t) => match find_message(reg, t@) {
                Some(j) => if rank(reg[j].name@) < rank(reg[i].name@) {
                    flatten_fields(reg, rank, j, Some(path), reg[j].fields@.len())
                } else {
                    seq![]
                },
                None => seq![],
            },
            FieldType::Repeated(_) => seq![],
            _ => seq![
                FlatField {
                    name: path,
                    field_type: fd.field_type,
                    indexed: fd.indexed_flag,
                    sorted: fd.sorted_flag,
                    text: fd.text_flag,
                },
            ],
        }
    }
}

pub open spec fn used_of(used: DynamicFields, kind: DynamicFieldKind) -> usize {
    match kind {
        DynamicFieldKind::Reference => used.reference,
        DynamicFieldKind::Text => used.text,
        DynamicFieldKind::String => used.string,
        DynamicFieldKind::I64 => used.i64,
        DynamicFieldKind::I64Fast => used.i64_fast,
        DynamicFieldKind::U64 => used.u64,
        DynamicFieldKind::U64Fast => used.u64_fast,
    }
}

/// Kind of dynamic field that a field gets, if one of that kind is left:
/// sorted numbers get a fast field, indexed numbers and references a plain
/// one, text strings a text field and other indexed strings a string field.
pub open spec fn field_kind(f: FlatField, used: DynamicFields, avail: DynamicFields) -> Option<DynamicFieldKind> {
    match f.field_type {
        FieldType::Uint64 | FieldType::Uint32 | FieldType::DateTime => {
            if f.sorted && used.u64_fast < avail.u64_fast {
                Some(DynamicFieldKind::U64Fast)
            } else if f.indexed && used.u64 < avail.u64 {
                Some(DynamicFieldKind::U64)
            } else {
                None
            }
        },
        FieldType::Int64 | FieldType::Int32 => {
            if f.sorted && used.i64_fast < avail.i64_fast {
                Some(DynamicFieldKind::I64Fast)
            } else if f.indexed && used.i64 < avail.i64 {
                Some(DynamicFieldKind::I64)
            } else {
                None
            }
        },
        FieldType::Reference => if f.indexed && used.reference < avail.reference {
            Some(DynamicFieldKind::Reference)
        } else {
            None
        },
        FieldType::String => {
            if f.text && used.text < avail.text {
                Some(DynamicFieldKind::Text)
            } else if f.indexed && used.string < avail.string {
                Some(DynamicFieldKind::String)
            } else {
                None
            }
        },
        _ => None,
    }
}

pub open spec fn with_used(used: DynamicFields, kind: DynamicFieldKind, count: usize) -> DynamicFields {
    match kind {
        DynamicFieldKind::Reference => DynamicFields { reference: count, ..used },
        DynamicFieldKind::Text => DynamicFields { text: count, ..used },
        DynamicFieldKind::String => DynamicFields { string: count, ..used },
        DynamicFieldKind::I64 => DynamicFields { i64: count, ..used },
        DynamicFieldKind::I64Fast => DynamicFields { i64_fast: count, ..used },
        DynamicFieldKind::U64 => DynamicFields { u64: count, ..used },
        DynamicFieldKind::U64Fast => DynamicFields { u64_fast: count, ..used },
    }
}

/// Mapping after giving a field the next free dynamic field of its kind.
pub open spec fn map_field(st: MsgFieldsView, f: FlatField, avail: DynamicFields) -> MsgFieldsView {
    match field_kind(f, st.used, avail) {
        Some(kind) => {
            let slot = used_of(st.used, kind);
            MsgFieldsView {
                mapping: st.mapping.insert(
                    f.name,
                    MappedDynamicField {
                        kind,
                        slot,
                        field_type: f.field_type,
                        is_fast_field: kind == DynamicFieldKind::U64Fast || kind == DynamicFieldKind::I64Fast,
                    },
                ),
                used: with_used(st.used, kind, (slot + 1) as usize),
            }
        },
        None => st,
    }
}

/// Unsigned numbers, dates included, are indexed in `u64` fields.
pub open spec fn is_unsigned_type(t: FieldType) -> bool {
    t is Uint64 || t is Uint32 || t is DateTime
}

/// Signed numbers are indexed in `i64` fields.
pub open spec fn is_signed_type(t: FieldType) -> bool {
    t is Int64 || t is Int32
}

/// The field got a dynamic field of the kind, in the next free slot of that
/// kind, which is then counted as used; a fast field exactly when the kind
/// is a fast one; other names keep their mapping.
pub open spec fn mapped_to(st: MsgFieldsView, f: FlatField, avail: DynamicFields, kind: DynamicFieldKind) -> bool {
    let res = map_field(st, f, avail);
    &&& res.mapping.contains_key(f.name)
    &&& res.mapping[f.name].kind == kind
    &&& res.mapping[f.name].slot == used_of(st.used, kind)
    &&& used_of(st.used, kind) < used_of(avail, kind)
    &&& used_of(res.used, kind) == used_of(st.used, kind) + 1
    &&& res.mapping[f.name].is_fast_field == (kind == DynamicFieldKind::U64Fast || kind == DynamicFieldKind::I64Fast)
    &&& forall|n: Seq<char>| n != f.name ==> res.mapping.get(n) == #[trigger] st.mapping.get(n)
}

/// How a field gets mapped: a sorted number gets a fast field of its kind
/// while one is free, else an indexed number gets a plain field of its kind
/// while one is free; an indexed reference gets a reference field; a text
/// string gets a text field, else an indexed string a string field, while
/// one is free. A field with no flag, or none of whose kinds is free, isn't
/// mapped, and leaves the mapping as it is.
pub proof fn lemma_map_field_law(st: MsgFieldsView, f: FlatField, avail: DynamicFields)
    ensures
        is_unsigned_type(f.field_type) && f.sorted && st.used.u64_fast < avail.u64_fast ==> mapped_to(st, f, avail, DynamicFieldKind::U64Fast),
        is_unsigned_type(f.field_type) && !(f.sorted && st.used.u64_fast < avail.u64_fast) && f.indexed && st.used.u64 < avail.u64
            ==> mapped_to(st, f, avail, DynamicFieldKind::U64),
        is_signed_type(f.field_type) && f.sorted && st.used.i64_fast < avail.i64_fast ==> mapped_to(st, f, avail, DynamicFieldKind::I64Fast),
        is_signed_type(f.field_type) && !(f.sorted && st.used.i64_fast < avail.i64_fast) && f.indexed && st.used.i64 < avail.i64
            ==> mapped_to(st, f, avail, DynamicFieldKind::I64),
        f.field_type is Reference && f.indexed && st.used.reference < avail.reference ==> mapped_to(st, f, avail, DynamicFieldKind::Reference),
        f.field_type is String && f.text && st.used.text < avail.text ==> mapped_to(st, f, avail, DynamicFieldKind::Text),
        f.field_type is String && !(f.text && st.used.text < avail.text) && f.indexed && st.used.string < avail.string
            ==> mapped_to(st, f, avail, DynamicFieldKind::String),
        !f.indexed && !f.sorted && !f.text ==> map_field(st, f, avail) == st,
        is_unsigned_type(f.field_type) && !(f.sorted && st.used.u64_fast < avail.u64_fast) && !(f.indexed && st.used.u64 < avail.u64)
            ==> map_field(st, f, avail) == st,
        is_signed_type(f.field_type) && !(f.sorted && st.used.i64_fast < avail.i64_fast) && !(f.indexed && st.used.i64 < avail.i64)
            ==> map_field(st, f, avail) == st,
{
    let res = map_field(st, f, avail);
    if let Some(kind) = field_kind(f, st.used, avail) {
        assert forall|n: Seq<char>| n != f.name implies res.mapping.get(n) == #[trigger] st.mapping.get(n) by {}
    }
}

/// Mapping after mapping the fields in order.
pub open spec fn map_fields(st: MsgFieldsView, fields: Seq<FlatField>, avail: DynamicFields) -> MsgFieldsView
    decreases fields.len(),
{
    if fields.len() == 0 {
        st
    } else {
        map_field(map_fields(st, fields.drop_last(), avail), fields.last(), avail)
    }
}

/// Mapping fields one after the other maps them all.
proof fn lemma_map_fields_append(st: MsgFieldsView, a: Seq<FlatField>, b: Seq<FlatField>, avail: DynamicFields)
    ensures
        map_fields(st, a + b, avail) == map_fields(map_fields(st, a, avail), b, avail),
    decreases b.len(),
{
    if b.len() == 0 {
        assert(a + b =~= a);
    } else {
        assert((a + b).drop_last() =~= a + b.drop_last());
        assert((a + b).last() == b.last());
        lemma_map_fields_append(st, a, b.drop_last(), avail);
    }
}

pub open spec fn avail_of(avail: DynamicFields, kind: DynamicFieldKind) -> usize {
    used_of(avail, kind)
}

/// Every mapped field is on a dynamic field that is allocated, and below the
/// number of fields of its kind in use; no two mapped fields share one.
pub open spec fn mapping_sound(st: MsgFieldsView, avail: DynamicFields) -> bool {
    &&& forall|n: Seq<char>| #[trigger] st.mapping.dom().contains(n) ==> {
        &&& st.mapping[n].slot < used_of(st.used, st.mapping[n].kind)
        &&& used_of(st.used, st.mapping[n].kind) <= avail_of(avail, st.mapping[n].kind)
    }
    &&& forall|n1: Seq<char>, n2: Seq<char>|
        #[trigger] st.mapping.dom().contains(n1) && #[trigger] st.mapping.dom().contains(n2) && n1 != n2
            && st.mapping[n1].kind == st.mapping[n2].kind ==> st.mapping[n1].slot != st.mapping[n2].slot
}

/// Fields of a message get distinct dynamic fields, each among those
/// allocated for its kind: the fields are used one after the other and none
/// is given twice.
pub proof fn lemma_mapping_sound(fields: Seq<FlatField>, avail: DynamicFields)
    ensures
        mapping_sound(
            map_fields(
                MsgFieldsView {
                    mapping: Map::empty(),
                    used: DynamicFields { reference: 0, text: 0, string: 0, i64: 0, i64_fast: 0, u64: 0, u64_fast: 0 },
                },
                fields,
                avail,
            ),
            avail,
        ),
        forall|kind: DynamicFieldKind| used_of(
            map_fields(
                MsgFieldsView {
                    mapping: Map::empty(),
                    used: DynamicFields { reference: 0, text: 0, string: 0, i64: 0, i64_fast: 0, u64: 0, u64_fast: 0 },
                },
                fields,
                avail,
            ).used,
            kind,
        ) <= avail_of(avail, kind),
    decreases fields.len(),
{
    let init = MsgFieldsView {
        mapping: Map::empty(),
        used: DynamicFields { reference: 0, text: 0, string: 0, i64: 0, i64_fast: 0, u64: 0, u64_fast: 0 },
    };
    if fields.len() > 0 {
        lemma_mapping_sound(fields.drop_last(), avail);
        let prev = map_fields(init, fields.drop_last(), avail);
        let f = fields.last();
        let st = map_fields(init, fields, avail);
        assert(st == map_field(prev, f, avail));
        match field_kind(f, prev.used, avail) {
            Some(kind) => {
                let slot = used_of(prev.used, kind);
                assert(slot < avail_of(avail, kind));
                assert forall|k2: DynamicFieldKind| used_of(st.used, k2) == if k2 == kind { slot + 1 } else { used_of(prev.used, k2) as int } by {
                }
                assert forall|n: Seq<char>| #[trigger] st.mapping.dom().contains(n) implies {
                    &&& st.mapping[n].slot < used_of(st.used, st.mapping[n].kind)
                    &&& used_of(st.used, st.mapping[n].kind) <= avail_of(avail, st.mapping[n].kind)
                } by {
                    if n != f.name {
                        assert(prev.mapping.dom().contains(n));
                    }
                }
                assert forall|n1: Seq<char>, n2: Seq<char>|
                    #[trigger] st.mapping.dom().contains(n1) && #[trigger] st.mapping.dom().contains(n2) && n1 != n2
                        && st.mapping[n1].kind == st.mapping[n2].kind implies st.mapping[n1].slot != st.mapping[n2].slot by {
                    if n1 != f.name && n2 != f.name {
                        assert(prev.mapping.dom().contains(n1));
                        assert(prev.mapping.dom().contains(n2));
                    } else if n1 == f.name {
                        assert(prev.mapping.dom().contains(n2));
                    } else {
                        assert(prev.mapping.dom().contains(n1));
                    }
                }
            },
            None => {},
        }
    }
}

/// Mapped fields of a message, by their dotted name, with a later mapping of
/// a name replacing an earlier one.
pub open spec fn entries_map<V>(entries: Seq<(String, V)>) -> Map<Seq<char>, V>
    decreases entries.len(),
{
    if entries.len() == 0 {
        Map::empty()
    } else {
        entries_map(entries.drop_last()).insert(entries.last().0@, entries.last().1)
    }
}

/// Fields mapping of a message.
pub struct MsgFields {
    pub mapping: Vec<(String, MappedDynamicField)>,
    pub used: DynamicFields,
}

impl MsgFields {
    pub open spec fn view(&self) -> MsgFieldsView {
        MsgFieldsView { mapping: entries_map(self.mapping@), used: self.used }
    }

    /// A mapping of no field.
    pub fn new() -> (res: MsgFields)
        ensures
            res@.mapping == Map::<Seq<char>, MappedDynamicField>::empty(),
            res@.used == (DynamicFields { reference: 0, text: 0, string: 0, i64: 0, i64_fast: 0, u64: 0, u64_fast: 0 }),
    {
        MsgFields {
            mapping: Vec::new(),
            used: DynamicFields { reference: 0, text: 0, string: 0, i64: 0, i64_fast: 0, u64: 0, u64_fast: 0 },
        }
    }
}

/// Position of the first registered message with the given name.
fn find_message_index(registry: &Registry, name: &String) -> (res: Option<usize>)
    ensures
        match res {
            Some(j) => j < registry.messages@.len() && find_message(registry.messages@, name@) == Some(j as int),
            None => find_message(registry.messages@, name@) is None,
        },
{
    let ghost reg = registry.messages@;
    let mut j: usize = 0;
    while j < registry.messages.len()
        invariant
            j <= reg.len(),
            reg == registry.messages@,
            forall|k: int| 0 <= k < j ==> reg[k].name@ != name@,
        decreases reg.len() - j,
    {
        if registry.messages[j].name == *name {
            proof {
                assert(reg[j as int].name@ == name@);
                let c = choose|i: int| 0 <= i < reg.len() && #[trigger] reg[i].name@ == name@
                    && forall|k: int| 0 <= k < i ==> reg[k].name@ != name@;
                if c < j {
                    assert(reg[c].name@ != name@);
                } else if c > j {
                    assert(reg[j as int].name@ != name@);
                }
            }
            return Some(j);
        }
        j = j + 1;
    }
    None
}

/// A copy of a type that holds a number, a string or a reference.
fn scalar_type_copy(ft: &FieldType) -> (res: FieldType)
    requires
        !(ft is Message),
        !(ft is Repeated),
    ensures
        res == *ft,
{
    match ft {
        FieldType::String => FieldType::String,
        FieldType::Int32 => FieldType::Int32,
        FieldType::Uint32 => FieldType::Uint32,
        FieldType::Int64 => FieldType::Int64,
        FieldType::Uint64 => FieldType::Uint64,
        FieldType::DateTime => FieldType::DateTime,
        FieldType::Reference => FieldType::Reference,
        _ => FieldType::String,
    }
}

/// Name of a field under the given prefix.
fn field_name_under(prefix: Option<&String>, name: &String) -> (res: String)
    ensures
        res@ == field_path(
            match prefix {
                Some(p) => Some(p@),
                None => None,
            },
            name@,
        ),
{
    match prefix {
        Some(p) => {
            proof {
                reveal_strlit(".");
            }
            p.clone().concat(".").concat(name.as_str())
        },
        None => name.clone(),
    }
}

impl MsgFields {
    /// Maps a field onto the `slot`-th dynamic field of the kind.
    fn assign(&mut self, name: String, kind: DynamicFieldKind, field_type: FieldType)
        requires
            used_of(old(self).used, kind) < usize::MAX,
        ensures
            final(self)@ == (MsgFieldsView {
                mapping: old(self)@.mapping.insert(
                    name@,
                    MappedDynamicField {
                        kind,
                        slot: used_of(old(self).used, kind),
                        field_type,
                        is_fast_field: kind == DynamicFieldKind::U64Fast || kind == DynamicFieldKind::I64Fast,
                    },
                ),
                used: with_used(old(self).used, kind, (used_of(old(self).used, kind) + 1) as usize),
            }),
    {
        let slot = match kind {
            DynamicFieldKind::Reference => self.used.reference,
            DynamicFieldKind::Text => self.used.text,
            DynamicFieldKind::String => self.used.string,
            DynamicFieldKind::I64 => self.used.i64,
            DynamicFieldKind::I64Fast => self.used.i64_fast,
            DynamicFieldKind::U64 => self.used.u64,
            DynamicFieldKind::U64Fast => self.used.u64_fast,
        };
        match kind {
            DynamicFieldKind::Reference => self.used.reference = slot + 1,
            DynamicFieldKind::Text => self.used.text = slot + 1,
            DynamicFieldKind::String => self.used.string = slot + 1,
            DynamicFieldKind::I64 => self.used.i64 = slot + 1,
            DynamicFieldKind::I64Fast => self.used.i64_fast = slot + 1,
            DynamicFieldKind::U64 => self.used.u64 = slot + 1,
            DynamicFieldKind::U64Fast => self.used.u64_fast = slot + 1,
        }
        let is_fast_field = match kind {
            DynamicFieldKind::U64Fast | DynamicFieldKind::I64Fast => true,
            _ => false,
        };
        let ghost before = self.mapping@;
        self.mapping.push((name, MappedDynamicField { kind, slot, field_type, is_fast_field }));
        proof {
            assert(self.mapping@.drop_last() =~= before);
        }
    }

    /// Maps the `k`-th field of the `msg`-th registered message, under the
    /// prefix, onto the next free dynamic field of the kind its type and
    /// options call for; the fields of a message it holds get mapped in
    /// turn, under its name. A field with no index option, a repeated field,
    /// a field holding an unregistered message, or one whose kind of dynamic
    /// field ran out, gets no mapping.
    fn add_field(
        &mut self,
        prefix: Option<&String>,
        registry: &Registry,
        dyn_fields: &DynamicFields,
        msg: usize,
        k: usize,
        Ghost(rank): Ghost<spec_fn(Seq<char>) -> nat>,
    )
        requires
            nested_ranked(registry.messages@, rank),
            msg < registry.messages@.len(),
            k < registry.messages@[msg as int].fields@.len(),
        ensures
            final(self)@ == map_fields(
                old(self)@,
                field_entries(
                    registry.messages@,
                    rank,
                    msg as int,
                    match prefix {
                        Some(p) => Some(p@),
                        None => None,
                    },
                    k as nat,
                ),
                *dyn_fields,
            ),
        decreases rank(registry.messages@[msg as int].name@),
    {
        let ghost reg = registry.messages@;
        let ghost pre = match prefix {
            Some(p) => Some(p@),
            None => None,
        };
        let ghost st0 = self@;
        let fd = &registry.messages[msg].fields[k];
        if !fd.indexed_flag && !fd.text_flag && !fd.sorted_flag {
            proof {
                assert(field_entries(reg, rank, msg as int, pre, k as nat) =~= seq![]);
            }
            return;
        }
        let field_name = field_name_under(prefix, &fd.name);
        let ghost flat = FlatField {
            name: field_name@,
            field_type: fd.field_type,
            indexed: fd.indexed_flag,
            sorted: fd.sorted_flag,
            text: fd.text_flag,
        };
        let kind: Option<DynamicFieldKind> = match &fd.field_type {
            FieldType::Uint64 | FieldType::Uint32 | FieldType::DateTime => {
                if fd.sorted_flag && self.used.u64_fast < dyn_fields.u64_fast {
                    Some(DynamicFieldKind::U64Fast)
                } else if fd.indexed_flag && self.used.u64 < dyn_fields.u64 {
                    Some(DynamicFieldKind::U64)
                } else {
                    None
                }
            },
            FieldType::Int64 | FieldType::Int32 => {
                if fd.sorted_flag && self.used.i64_fast < dyn_fields.i64_fast {
                    Some(DynamicFieldKind::I64Fast)
                } else if fd.indexed_flag && self.used.i64 < dyn_fields.i64 {
                    Some(DynamicFieldKind::I64)
                } else {
                    None
                }
            },
            FieldType::Reference => {
                if fd.indexed_flag && self.used.reference < dyn_fields.reference {
                    Some(DynamicFieldKind::Reference)
                } else {
                    None
                }
            },
            FieldType::String => {
                if fd.text_flag && self.used.text < dyn_fields.text {
                    Some(DynamicFieldKind::Text)
                } else if fd.indexed_flag && self.used.string < dyn_fields.string {
                    Some(DynamicFieldKind::String)
                } else {
                    None
                }
            },
            FieldType::Message(msg_type) => {
                match find_message_index(registry, msg_type) {
                    Some(j) => {
                        proof {
                            assert(has_index_flag(reg[msg as int].fields@[k as int]));
                            assert(rank(reg[j as int].name@) < rank(reg[msg as int].name@));
                        }
                        let count = registry.messages[j].fields.len();
                        let mut kk: usize = 0;
                        while kk < count
                            invariant
                                kk <= count,
                                count == reg[j as int].fields@.len(),
                                j < reg.len(),
                                reg == registry.messages@,
                                nested_ranked(reg, rank),
                                rank(reg[j as int].name@) < rank(reg[msg as int].name@),
                                self@ == map_fields(st0, flatten_fields(reg, rank, j as int, Some(field_name@), kk as nat), *dyn_fields),
                            decreases count - kk,
                        {
                            proof {
                                lemma_map_fields_append(
                                    st0,
                                    flatten_fields(reg, rank, j as int, Some(field_name@), kk as nat),
                                    field_entries(reg, rank, j as int, Some(field_name@), kk as nat),
                                    *dyn_fields,
                                );
                            }
                            self.add_field(Some(&field_name), registry, dyn_fields, j, kk, Ghost(rank));
                            kk = kk + 1;
                        }
                        return;
                    },
                    None => {
                        proof {
                            assert(field_entries(reg, rank, msg as int, pre, k as nat) =~= seq![]);
                        }
                        return;
                    },
                }
            },
            FieldType::Repeated(_) => {
                proof {
                    assert(field_entries(reg, rank, msg as int, pre, k as nat) =~= seq![]);
                }
                return;
            },
        };
        proof {
            assert(field_entries(reg, rank, msg as int, pre, k as nat) == seq![flat]);
            assert(seq![flat].drop_last() =~= Seq::<FlatField>::empty());
            assert(kind == field_kind(flat, st0.used, *dyn_fields));
            assert(map_fields(st0, seq![flat].drop_last(), *dyn_fields) == st0);
            assert(map_fields(st0, seq![flat], *dyn_fields) == map_field(st0, flat, *dyn_fields));
        }
        match kind {
            Some(kind) => {
                let field_type = scalar_type_copy(&fd.field_type);
                self.assign(field_name, kind, field_type);
            },
            None => {},
        }
    }
}

/// Fields mapping of each registered message that has a field to map, in the
/// order the messages are registered.
pub open spec fn messages_mappings(reg: Seq<MessageDescriptor>, avail: DynamicFields, n: nat) -> Seq<(Seq<char>, MsgFieldsView)>
    decreases n,
{
    if n == 0 {
        seq![]
    } else {
        let prev = messages_mappings(reg, avail, (n - 1) as nat);
        let i = n - 1;
        let st = map_fields(
            MsgFieldsView {
                mapping: Map::empty(),
                used: DynamicFields { reference: 0, text: 0, string: 0, i64: 0, i64_fast: 0, u64: 0, u64_fast: 0 },
            },
            flatten_fields(reg, registry_rank(reg), i, None, reg[i].fields@.len()),
            avail,
        );
        if st.mapping.dom() == Set::<Seq<char>>::empty() {
            prev
        } else {
            prev.push((reg[i].name@, st))
        }
    }
}

/// Maps the fields of every registered message onto the dynamic fields of the
/// index, and gives the mapping of each message that has a field to map.
pub fn build_dynamic_fields_mapping(registry: &Registry, dyn_fields: &DynamicFields) -> (res: Vec<(String, MsgFields)>)
    requires
        registry_acyclic(registry.messages@),
    ensures
        res@.map_values(|e: (String, MsgFields)| (e.0@, e.1@))
            == messages_mappings(registry.messages@, *dyn_fields, registry.messages@.len()),
{
    let ghost reg = registry.messages@;
    let ghost rank = registry_rank(reg);
    let mut res: Vec<(String, MsgFields)> = Vec::new();
    let mut i: usize = 0;
    while i < registry.messages.len()
        invariant
            i <= reg.len(),
            reg == registry.messages@,
            rank == registry_rank(reg),
            nested_ranked(reg, rank),
            res@.map_values(|e: (String, MsgFields)| (e.0@, e.1@)) == messages_mappings(reg, *dyn_fields, i as nat),
        decreases reg.len() - i,
    {
        let mut msg_fields = MsgFields::new();
        let ghost st0 = msg_fields@;
        let count = registry.messages[i].fields.len();
        let mut k: usize = 0;
        while k < count
            invariant
                k <= count,
                i < reg.len(),
                count == reg[i as int].fields@.len(),
                reg == registry.messages@,
                nested_ranked(reg, rank),
                msg_fields@ == map_fields(st0, flatten_fields(reg, rank, i as int, None, k as nat), *dyn_fields),
            decreases count - k,
        {
            proof {
                lemma_map_fields_append(
                    st0,
                    flatten_fields(reg, rank, i as int, None, k as nat),
                    field_entries(reg, rank, i as int, None, k as nat),
                    *dyn_fields,
                );
            }
            msg_fields.add_field(None, registry, dyn_fields, i, k, Ghost(rank));
            k = k + 1;
        }
        let ghost before = res@;
        if msg_fields.mapping.len() > 0 {
            proof {
                let last = msg_fields.mapping@.last();
                assert(msg_fields@.mapping.dom().contains(last.0@));
            }
            res.push((registry.messages[i].name.clone(), msg_fields));
            proof {
                assert(res@.map_values(|e: (String, MsgFields)| (e.0@, e.1@))
                    =~= before.map_values(|e: (String, MsgFields)| (e.0@, e.1@)).push((reg[i as int].name@, msg_fields@)));
            }
        } else {
            proof {
                assert(msg_fields@.mapping.dom() =~= Set::<Seq<char>>::empty());
            }
        }
        i = i + 1;
    }
    res
}

/// Position of the last entry with the given name, if any.
pub open spec fn last_index_of<V>(entries: Seq<(String, V)>, name: Seq<char>) -> Option<int>
    decreases entries.len(),
{
    if entries.len() == 0 {
        None
    } else if entries.last().0@ == name {
        Some(entries.len() - 1)
    } else {
        last_index_of(entries.drop_last(), name)
    }
}

/// A name is mapped to the value of its last entry.
proof fn lemma_entries_map_last<V>(entries: Seq<(String, V)>, name: Seq<char>)
    ensures
        match last_index_of(entries, name) {
            Some(i) => 0 <= i < entries.len() && entries_map(entries).contains_key(name) && entries_map(entries)[name] == entries[i].1,
            None => !entries_map(entries).contains_key(name),
        },
    decreases entries.len(),
{
    if entries.len() > 0 {
        lemma_entries_map_last(entries.drop_last(), name);
    }
}

/// Position of the last entry with the given name, if any.
fn find_last<V>(entries: &Vec<(String, V)>, name: &String) -> (res: Option<usize>)
    ensures
        match res {
            Some(i) => last_index_of(entries@, name@) == Some(i as int),
            None => last_index_of(entries@, name@) is None,
        },
{
    let mut i: usize = entries.len();
    proof {
        assert(entries@.take(i as int) =~= entries@);
    }
    while i > 0
        invariant
            i <= entries@.len(),
            last_index_of(entries@, name@) == last_index_of(entries@.take(i as int), name@),
        decreases i,
    {
        proof {
            assert(entries@.take(i as int).drop_last() =~= entries@.take(i as int - 1));
        }
        if entries[i - 1].0 == *name {
            return Some(i - 1);
        }
        i = i - 1;
    }
    None
}

/// Kind and slot of the dynamic field onto which the named field of the
/// message is mapped, if it is mapped.
pub(crate) fn mapped_field(fields: &MsgFields, name: &String) -> (res: Option<(DynamicFieldKind, usize)>)
    ensures
        res == (if fields@.mapping.contains_key(name@) {
            Some((fields@.mapping[name@].kind, fields@.mapping[name@].slot))
        } else {
            None
        }),
{
    proof {
        lemma_entries_map_last(fields.mapping@, name@);
    }
    match find_last(&fields.mapping, name) {
        Some(i) => Some((fields.mapping[i].1.kind, fields.mapping[i].1.slot)),
        None => None,
    }
}

/// Why a dynamic field of a trait couldn't be found.
#[derive(Debug, Copy, Clone, PartialEq, Eq, Structural)]
pub enum DynamicFieldError {
    /// The trait has no dynamic field.
    NoDynamicFields,
    /// The trait has no dynamic field with that name.
    NoSuchField,
    /// The field can't be sorted by, since it isn't a fast field.
    NotSortable,
}

/// Dynamic fields mapping of each message, by message name, a later mapping
/// of a name replacing an earlier one.
pub open spec fn messages_map(mappings: Seq<(String, MsgFields)>) -> Map<Seq<char>, MsgFieldsView> {
    entries_map(mappings).map_values(|m: MsgFields| m@)
}

/// Fields mapping of the named message, if it has one.
pub(crate) fn message_fields<'a>(mappings: &'a Vec<(String, MsgFields)>, name: &String) -> (res: Option<&'a MsgFields>)
    ensures
        match res {
            Some(f) => messages_map(mappings@).contains_key(name@) && messages_map(mappings@)[name@] == f@,
            None => !messages_map(mappings@).contains_key(name@),
        },
{
    proof {
        lemma_entries_map_last(mappings@, name@);
    }
    match find_last(mappings, name) {
        Some(i) => Some(&mappings[i].1),
        None => None,
    }
}

/// Finds the dynamic field onto which a field of a trait is mapped.
pub fn get_dynamic_trait_field<'a>(mappings: &'a Vec<(String, MsgFields)>, trait_name: &String, field_name: &String) -> (res: Result<&'a MappedDynamicField, DynamicFieldError>)
    ensures
        match res {
            Ok(f) => messages_map(mappings@).contains_key(trait_name@)
                && messages_map(mappings@)[trait_name@].mapping.contains_key(field_name@)
                && *f == messages_map(mappings@)[trait_name@].mapping[field_name@],
            Err(DynamicFieldError::NoDynamicFields) => !messages_map(mappings@).contains_key(trait_name@),
            Err(DynamicFieldError::NoSuchField) => messages_map(mappings@).contains_key(trait_name@)
                && !messages_map(mappings@)[trait_name@].mapping.contains_key(field_name@),
            Err(DynamicFieldError::NotSortable) => false,
        },
{
    proof {
        lemma_entries_map_last(mappings@, trait_name@);
    }
    let i = match find_last(mappings, trait_name) {
        Some(i) => i,
        None => return Err(DynamicFieldError::NoDynamicFields),
    };
    let fields = &mappings[i].1.mapping;
    proof {
        lemma_entries_map_last(fields@, field_name@);
    }
    match find_last(fields, field_name) {
        Some(j) => Ok(&fields[j].1),
        None => Err(DynamicFieldError::NoSuchField),
    }
}

/// How results are ordered.
#[derive(Debug)]
pub enum OrderingKind {
    Score,
    OperationId,
    CreatedAt,
    UpdatedAt,
    /// A field of the queried trait.
    Field(String),
}

/// Field of the index by which results are sorted.
#[derive(Debug, Copy, Clone, PartialEq, Eq, Structural)]
pub enum SortBy {
    Score,
    OperationId,
    CreationDate,
    ModificationDate,
    /// The `slot`-th dynamic field of the kind.
    Dynamic(DynamicFieldKind, usize),
}

/// Why a query's ordering couldn't be applied.
#[derive(Debug, Copy, Clone, PartialEq, Eq, Structural)]
pub enum OrderingError {
    /// The query had no ordering value.
    MissingOrdering,
    /// Ordering by a field needs a trait query.
    FieldWithoutTrait,
    /// The field couldn't be sorted by.
    Field(DynamicFieldError),
}

/// Decides by what a query's results get sorted: by score, operation,
/// creation or modification date, or by a sortable field of the queried
/// trait.
pub fn sort_by_for(ordering: &Option<OrderingKind>, trait_name: &Option<String>, mappings: &Vec<(String, MsgFields)>) -> (res: Result<SortBy, OrderingError>)
    ensures
        match ordering {
            None => res == Err::<SortBy, OrderingError>(OrderingError::MissingOrdering),
            Some(OrderingKind::Score) => res == Ok::<SortBy, OrderingError>(SortBy::Score),
            Some(OrderingKind::OperationId) => res == Ok::<SortBy, OrderingError>(SortBy::OperationId),
            Some(OrderingKind::CreatedAt) => res == Ok::<SortBy, OrderingError>(SortBy::CreationDate),
            Some(OrderingKind::UpdatedAt) => res == Ok::<SortBy, OrderingError>(SortBy::ModificationDate),
            Some(OrderingKind::Field(field)) => match trait_name {
                None => res == Err::<SortBy, OrderingError>(OrderingError::FieldWithoutTrait),
                Some(t) => {
                    let m = messages_map(mappings@);
                    if !m.contains_key(t@) {
                        res == Err::<SortBy, OrderingError>(OrderingError::Field(DynamicFieldError::NoDynamicFields))
                    } else if !m[t@].mapping.contains_key(field@) {
                        res == Err::<SortBy, OrderingError>(OrderingError::Field(DynamicFieldError::NoSuchField))
                    } else if !m[t@].mapping[field@].is_fast_field {
                        res == Err::<SortBy, OrderingError>(OrderingError::Field(DynamicFieldError::NotSortable))
                    } else {
                        res == Ok::<SortBy, OrderingError>(SortBy::Dynamic(m[t@].mapping[field@].kind, m[t@].mapping[field@].slot))
                    }
                },
            },
        },
{
    match ordering {
        None => Err(OrderingError::MissingOrdering),
        Some(OrderingKind::Score) => Ok(SortBy::Score),
        Some(OrderingKind::OperationId) => Ok(SortBy::OperationId),
        Some(OrderingKind::CreatedAt) => Ok(SortBy::CreationDate),
        Some(OrderingKind::UpdatedAt) => Ok(SortBy::ModificationDate),
        Some(OrderingKind::Field(field)) => {
            let t = match trait_name {
                Some(t) => t,
                None => return Err(OrderingError::FieldWithoutTrait),
            };
            match get_dynamic_trait_field(mappings, t, field) {
                Ok(f) => {
                    if !f.is_fast_field {
                        Err(OrderingError::Field(DynamicFieldError::NotSortable))
                    } else {
                        Ok(SortBy::Dynamic(f.kind, f.slot))
                    }
                },
                Err(e) => Err(OrderingError::Field(e)),
            }
        },
    }
}

/// The string in lowercase, as `str::to_lowercase` gives it.
pub uninterp spec fn lowercase(s: Seq<char>) -> Seq<char>;

/// Calls `str::to_lowercase`, which lowercases by Unicode's rules: the
/// result is named `lowercase` of the string.
#[verifier::external_body]
fn to_lowercase(s: &str) -> (res: String)
    ensures
        res@ == lowercase(s@),
{
    s.to_lowercase()
}

/// Short names of the first `n` registered messages, each with the full
/// name of its message, in order.
pub open spec fn short_name_pairs(reg: Seq<MessageDescriptor>, n: nat) -> Seq<(Seq<char>, Seq<char>)>
    decreases n,
{
    if n == 0 {
        seq![]
    } else {
        short_name_pairs(reg, (n - 1) as nat) + reg[n - 1].short_names@.map_values(|s: String| (s@, reg[n - 1].name@))
    }
}

/// Full message name by lowercased short name: a short name is skipped when
/// it is already mapped as given (before lowercasing).
pub open spec fn short_names_map(pairs: Seq<(Seq<char>, Seq<char>)>) -> Map<Seq<char>, Seq<char>>
    decreases pairs.len(),
{
    if pairs.len() == 0 {
        Map::empty()
    } else {
        let m = short_names_map(pairs.drop_last());
        let (short, full) = pairs.last();
        if m.contains_key(short) {
            m
        } else {
            m.insert(lowercase(short), full)
        }
    }
}

/// Maps the lowercased short names of the registered messages to the full
/// names of their messages.
pub fn build_schema_short_type_mapping(registry: &Registry) -> (res: Vec<(String, String)>)
    ensures
        entries_map(res@).map_values(|n: String| n@) == short_names_map(short_name_pairs(registry.messages@, registry.messages@.len())),
{
    let ghost reg = registry.messages@;
    let ghost view_of = |n: String| n@;
    let mut res: Vec<(String, String)> = Vec::new();
    let ghost mut done: Seq<(Seq<char>, Seq<char>)> = seq![];
    let mut i: usize = 0;
    while i < registry.messages.len()
        invariant
            i <= reg.len(),
            reg == registry.messages@,
            view_of == (|n: String| n@),
            done == short_name_pairs(reg, i as nat),
            entries_map(res@).map_values(view_of) == short_names_map(done),
        decreases reg.len() - i,
    {
        let msg = &registry.messages[i];
        let ghost pairs_i = msg.short_names@.map_values(|s: String| (s@, msg.name@));
        let ghost done0 = done;
        let mut j: usize = 0;
        while j < msg.short_names.len()
            invariant
                j <= msg.short_names@.len(),
                msg == &registry.messages@[i as int],
                view_of == (|n: String| n@),
                pairs_i == msg.short_names@.map_values(|s: String| (s@, msg.name@)),
                done == done0 + pairs_i.take(j as int),
                entries_map(res@).map_values(view_of) == short_names_map(done),
            decreases msg.short_names@.len() - j,
        {
            let short_name = &msg.short_names[j];
            let ghost before = res@;
            proof {
                lemma_entries_map_last(res@, short_name@);
            }
            let known = match find_last(&res, short_name) {
                Some(_) => true,
                None => false,
            };
            proof {
                assert(known == short_names_map(done).contains_key(short_name@));
                assert(done0 + pairs_i.take(j as int + 1) =~= (done0 + pairs_i.take(j as int)).push((short_name@, msg.name@)));
            }
            if !known {
                let lower = to_lowercase(short_name.as_str());
                res.push((lower, msg.name.clone()));
                proof {
                    assert(res@.drop_last() =~= before);
                    assert(entries_map(res@).map_values(view_of) =~= entries_map(before).map_values(view_of).insert(
                        lowercase(short_name@),
                        msg.name@,
                    ));
                }
            }
            proof {
                done = done + seq![(short_name@, msg.name@)];
                assert(done.drop_last() =~= done0 + pairs_i.take(j as int));
            }
            j = j + 1;
        }
        proof {
            assert(pairs_i.take(j as int) =~= pairs_i);
        }
        i = i + 1;
    }
    res
}

/// Full name of the message with the given short name, in any case.
pub fn get_message_name_from_short(short_names: &Vec<(String, String)>, short_name: &str) -> (res: Option<String>)
    ensures
        match res {
            Some(n) => entries_map(short_names@).contains_key(lowercase(short_name@))
                && n@ == entries_map(short_names@)[lowercase(short_name@)]@,
            None => !entries_map(short_names@).contains_key(lowercase(short_name@)),
        },
{
    let lower = to_lowercase(short_name);
    proof {
        lemma_entries_map_last(short_names@, lower@);
    }
    match find_last(short_names, &lower) {
        Some(i) => Some(short_names[i].1.clone()),
        None => None,
    }
}

} // verus!
