//! Terms indexed for the fields of a trait's message: each field that the
//! message's mapping maps onto a dynamic field of the index gets its value
//! indexed there, by the field's flags; fields of sub-messages are mapped
//! under their dotted name (`parent.child`).
use vstd::prelude::*;
use vstd::string::StringExecFns;
use crate::store::schema::{mapped_field, message_fields, messages_map, DynamicFieldKind, FieldDescriptor, MappedDynamicField, MsgFields};

verus! {

/// Value of a field of a message.
pub enum FieldValue {
    String(String),
    /// Reference to a trait of an entity: entity id, then trait id.
    Reference(String, String),
    /// Date, in nanoseconds since the Unix epoch (0 when out of range).
    DateTime(i64),
    Int64(i64),
    Int32(i32),
    Uint64(u64),
    Uint32(u32),
    /// A sub-message, by its fields.
    Message(Vec<MessageField>),
    /// A value of a type that isn't indexed.
    Other,
}

/// A field of a message with its value, `None` when it couldn't be read.
pub struct MessageField {
    pub desc: FieldDescriptor,
    pub value: Option<FieldValue>,
}

/// A term added to a trait's document.
#[derive(Debug, PartialEq, Eq)]
pub enum DocTerm {
    /// Text in the `slot`-th dynamic field of the kind.
    Text(DynamicFieldKind, usize, String),
    /// Text in the field holding all the text of the trait.
    AllText(String),
    /// Reference in the field holding all the references of the trait.
    AllRefs(String),
    /// Signed number in a dynamic field.
    I64(DynamicFieldKind, usize, i64),
    /// Unsigned number in a dynamic field.
    U64(DynamicFieldKind, usize, u64),
}

/// A term, with its text as a sequence of characters.
pub enum DocTermView {
    Text(DynamicFieldKind, usize, Seq<char>),
    AllText(Seq<char>),
    AllRefs(Seq<char>),
    I64(DynamicFieldKind, usize, i64),
    U64(DynamicFieldKind, usize, u64),
}

pub open spec fn term_view(t: DocTerm) -> DocTermView {
    match t {
        DocTerm::Text(k, s, v) => DocTermView::Text(k, s, v@),
        DocTerm::AllText(v) => DocTermView::AllText(v@),
        DocTerm::AllRefs(v) => DocTermView::AllRefs(v@),
        DocTerm::I64(k, s, v) => DocTermView::I64(k, s, v),
        DocTerm::U64(k, s, v) => DocTermView::U64(k, s, v),
    }
}

pub open spec fn terms_view(terms: Seq<DocTerm>) -> Seq<DocTermView> {
    terms.map_values(|t: DocTerm| term_view(t))
}

/// Text indexed for a reference to a trait of an entity.
pub open spec fn reference_text(entity_id: Seq<char>, trait_id: Seq<char>) -> Seq<char> {
    "entity"@ + entity_id + " trait"@ + trait_id
}

/// Terms of a value mapped onto the `slot`-th dynamic field of the kind, and
/// whether it is a reference: text is indexed in the field, and in the field
/// of all text when the field is a text one; a reference is indexed when the
/// field is indexed, and in the field of all references; numbers and dates
/// when the field is indexed or sorted. Other values aren't indexed.
pub open spec fn value_terms(desc: FieldDescriptor, value: FieldValue, kind: DynamicFieldKind, slot: usize) -> (Seq<DocTermView>, bool) {
    let numeric = desc.indexed_flag || desc.sorted_flag;
    match value {
        FieldValue::String(v) => if desc.text_flag {
            (seq![DocTermView::Text(kind, slot, v@), DocTermView::AllText(v@)], false)
        } else if desc.indexed_flag {
            (seq![DocTermView::Text(kind, slot, v@)], false)
        } else {
            (seq![], false)
        },
        FieldValue::Reference(e, t) => if desc.indexed_flag {
            (seq![DocTermView::Text(kind, slot, reference_text(e@, t@)), DocTermView::AllRefs(reference_text(e@, t@))], true)
        } else {
            (seq![], false)
        },
        FieldValue::DateTime(n) => if numeric { (seq![DocTermView::U64(kind, slot, n as u64)], false) } else { (seq![], false) },
        FieldValue::Int64(n) => if numeric { (seq![DocTermView::I64(kind, slot, n)], false) } else { (seq![], false) },
        FieldValue::Int32(n) => if numeric { (seq![DocTermView::I64(kind, slot, n as i64)], false) } else { (seq![], false) },
        FieldValue::Uint64(n) => if numeric { (seq![DocTermView::U64(kind, slot, n)], false) } else { (seq![], false) },
        FieldValue::Uint32(n) => if numeric { (seq![DocTermView::U64(kind, slot, n as u64)], false) } else { (seq![], false) },
        _ => (seq![], false),
    }
}

/// Numbers of a value, as held by the numeric term it gets: unsigned ones
/// and dates as `u64`, signed ones as `i64`.
pub open spec fn unsigned_number(value: FieldValue) -> Option<u64> {
    match value {
        FieldValue::Uint64(n) => Some(n),
        FieldValue::Uint32(n) => Some(n as u64),
        FieldValue::DateTime(n) => Some(n as u64),
        _ => None,
    }
}

pub open spec fn signed_number(value: FieldValue) -> Option<i64> {
    match value {
        FieldValue::Int64(n) => Some(n),
        FieldValue::Int32(n) => Some(n as i64),
        _ => None,
    }
}

/// Terms of a mapped value: a number of a field that is indexed or sorted
/// gives exactly one numeric term holding it, in the mapped dynamic field,
/// and none otherwise; a string of a text field gives its text in the
/// mapped field and in the field of all text, a string of an indexed field
/// its text in the mapped field only; a reference of an indexed field gives
/// its reference text in the mapped field and in the field of all
/// references, and is the only kind of value that flags a reference; values
/// of other kinds give nothing.
pub proof fn lemma_value_terms_law(desc: FieldDescriptor, value: FieldValue, kind: DynamicFieldKind, slot: usize)
    ensures
        unsigned_number(value) matches Some(n) ==> value_terms(desc, value, kind, slot) == if desc.indexed_flag || desc.sorted_flag {
            (seq![DocTermView::U64(kind, slot, n)], false)
        } else {
            (Seq::<DocTermView>::empty(), false)
        },
        signed_number(value) matches Some(n) ==> value_terms(desc, value, kind, slot) == if desc.indexed_flag || desc.sorted_flag {
            (seq![DocTermView::I64(kind, slot, n)], false)
        } else {
            (Seq::<DocTermView>::empty(), false)
        },
        value matches FieldValue::String(v) ==> value_terms(desc, value, kind, slot) == if desc.text_flag {
            (seq![DocTermView::Text(kind, slot, v@), DocTermView::AllText(v@)], false)
        } else if desc.indexed_flag {
            (seq![DocTermView::Text(kind, slot, v@)], false)
        } else {
            (Seq::<DocTermView>::empty(), false)
        },
        value matches FieldValue::Reference(e, t) ==> value_terms(desc, value, kind, slot) == if desc.indexed_flag {
            (seq![DocTermView::Text(kind, slot, reference_text(e@, t@)), DocTermView::AllRefs(reference_text(e@, t@))], true)
        } else {
            (Seq::<DocTermView>::empty(), false)
        },
        value is Message || value is Other ==> value_terms(desc, value, kind, slot) == (Seq::<DocTermView>::empty(), false),
{
}

/// Dotted name of a field under the name of its parent message, if any.
pub open spec fn dotted_name(prefix: Option<Seq<char>>, name: Seq<char>) -> Seq<char> {
    match prefix {
        Some(p) => p + "."@ + name,
        None => name,
    }
}

/// Terms of a field of a message and whether any of them is a reference: a
/// sub-message is always looked into, each of its fields under the dotted
/// name; another value is indexed only when its name is mapped.
pub open spec fn field_terms(
    prefix: Option<Seq<char>>,
    field: MessageField,
    mapping: Map<Seq<char>, MappedDynamicField>,
) -> (Seq<DocTermView>, bool)
    decreases field, 0nat,
{
    let name = dotted_name(prefix, field.desc.name@);
    match field.value {
        None => (seq![], false),
        Some(FieldValue::Message(subs)) => fields_terms(Some(name), subs@, mapping, subs@.len()),
        Some(v) => if mapping.contains_key(name) {
            value_terms(field.desc, v, mapping[name].kind, mapping[name].slot)
        } else {
            (seq![], false)
        },
    }
}

/// Terms of the first `n` fields, one after the other, and whether any is a
/// reference.
pub open spec fn fields_terms(
    prefix: Option<Seq<char>>,
    fields: Seq<MessageField>,
    mapping: Map<Seq<char>, MappedDynamicField>,
    n: nat,
) -> (Seq<DocTermView>, bool)
    decreases fields, n,
{
    if n == 0 || n > fields.len() {
        (seq![], false)
    } else {
        let before = fields_terms(prefix, fields, mapping, (n - 1) as nat);
        let last = field_terms(prefix, fields[n - 1], mapping);
        (before.0 + last.0, before.1 || last.1)
    }
}

/// The terms of each of the first `n` fields are among the terms of the
/// fields, and a reference among them flags the fields.
proof fn lemma_fields_terms_include(
    prefix: Option<Seq<char>>,
    fields: Seq<MessageField>,
    mapping: Map<Seq<char>, MappedDynamicField>,
    n: nat,
    k: int,
)
    requires
        0 <= k < n <= fields.len(),
    ensures
        forall|t: DocTermView| field_terms(prefix, fields[k], mapping).0.contains(t) ==> #[trigger] fields_terms(prefix, fields, mapping, n).0.contains(t),
        field_terms(prefix, fields[k], mapping).1 ==> fields_terms(prefix, fields, mapping, n).1,
    decreases n,
{
    let m = (n - 1) as nat;
    let before = fields_terms(prefix, fields, mapping, m);
    let last = field_terms(prefix, fields[m as int], mapping);
    assert(fields_terms(prefix, fields, mapping, n) == (before.0 + last.0, before.1 || last.1));
    if k < m {
        lemma_fields_terms_include(prefix, fields, mapping, m, k);
        assert forall|t: DocTermView| field_terms(prefix, fields[k], mapping).0.contains(t) implies #[trigger] fields_terms(prefix, fields, mapping, n).0.contains(t) by {
            assert(fields_terms(prefix, fields, mapping, m).0.contains(t));
            let i = choose|i: int| 0 <= i < before.0.len() && before.0[i] == t;
            assert((before.0 + last.0)[i] == t);
        }
    } else {
        assert forall|t: DocTermView| field_terms(prefix, fields[k], mapping).0.contains(t) implies #[trigger] fields_terms(prefix, fields, mapping, n).0.contains(t) by {
            let i = choose|i: int| 0 <= i < last.0.len() && last.0[i] == t;
            assert((before.0 + last.0)[before.0.len() + i] == t);
        }
    }
}

/// Every field of a trait's message whose value isn't a sub-message and
/// whose name is mapped gives all the terms of its value, in the dynamic
/// field it is mapped to, among the terms of the message, and flags the
/// message as having a reference when its value is an indexed reference.
pub proof fn lemma_message_field_terms(fields: Seq<MessageField>, mapping: Map<Seq<char>, MappedDynamicField>, k: int)
    requires
        0 <= k < fields.len(),
        fields[k].value matches Some(v) && !(v is Message),
        mapping.contains_key(fields[k].desc.name@),
    ensures
        ({
            let f = fields[k];
            let m = mapping[f.desc.name@];
            let vt = value_terms(f.desc, f.value->0, m.kind, m.slot);
            let all = fields_terms(None, fields, mapping, fields.len());
            &&& forall|t: DocTermView| vt.0.contains(t) ==> #[trigger] all.0.contains(t)
            &&& vt.1 ==> all.1
        }),
{
    let f = fields[k];
    assert(dotted_name(None, f.desc.name@) == f.desc.name@);
    assert(field_terms(None, f, mapping) == value_terms(f.desc, f.value->0, mapping[f.desc.name@].kind, mapping[f.desc.name@].slot));
    lemma_fields_terms_include(None, fields, mapping, fields.len(), k);
}

/// Terms of a value mapped onto a dynamic field.
fn add_value_terms(
    desc: &FieldDescriptor,
    value: FieldValue,
    kind: DynamicFieldKind,
    slot: usize,
    terms: &mut Vec<DocTerm>,
    has_reference: &mut bool,
)
    ensures
        terms_view(final(terms)@) == terms_view(old(terms)@) + value_terms(*desc, value, kind, slot).0,
        *final(has_reference) == (*old(has_reference) || value_terms(*desc, value, kind, slot).1),
{
    let ghost before = old(terms)@;
    let ghost v0 = value;
    let numeric = desc.indexed_flag || desc.sorted_flag;
    match value {
        FieldValue::String(v) => {
            if desc.text_flag {
                let all = v.clone();
                terms.push(DocTerm::Text(kind, slot, v));
                terms.push(DocTerm::AllText(all));
            } else if desc.indexed_flag {
                terms.push(DocTerm::Text(kind, slot, v));
            }
        },
        FieldValue::Reference(e, t) => {
            if desc.indexed_flag {
                let mut text = String::from_str("entity");
                text.append(e.as_str());
                text.append(" trait");
                text.append(t.as_str());
                proof {
                    assert(text@ =~= reference_text(e@, t@));
                }
                let all = text.clone();
                terms.push(DocTerm::Text(kind, slot, text));
                terms.push(DocTerm::AllRefs(all));
                *has_reference = true;
            }
        },
        FieldValue::DateTime(n) => {
            if numeric {
                terms.push(DocTerm::U64(kind, slot, n as u64));
            }
        },
        FieldValue::Int64(n) => {
            if numeric {
                terms.push(DocTerm::I64(kind, slot, n));
            }
        },
        FieldValue::Int32(n) => {
            if numeric {
                terms.push(DocTerm::I64(kind, slot, n as i64));
            }
        },
        FieldValue::Uint64(n) => {
            if numeric {
                terms.push(DocTerm::U64(kind, slot, n));
            }
        },
        FieldValue::Uint32(n) => {
            if numeric {
                terms.push(DocTerm::U64(kind, slot, n as u64));
            }
        },
        _ => {},
    }
    proof {
        assert(terms_view(terms@) =~= terms_view(before) + value_terms(*desc, v0, kind, slot).0);
    }
}

pub open spec fn prefix_view(prefix: Option<String>) -> Option<Seq<char>> {
    match prefix {
        Some(p) => Some(p@),
        None => None,
    }
}

/// Adds the terms of a field of a message, whose parent message, if any, is
/// named `prefix`.
fn add_field_terms(
    prefix: &Option<String>,
    field: MessageField,
    fields: &MsgFields,
    terms: &mut Vec<DocTerm>,
    has_reference: &mut bool,
)
    ensures
        terms_view(final(terms)@) == terms_view(old(terms)@) + field_terms(prefix_view(*prefix), field, fields@.mapping).0,
        *final(has_reference) == (*old(has_reference) || field_terms(prefix_view(*prefix), field, fields@.mapping).1),
    decreases field, 0int,
{
    let ghost f0 = field;
    let ghost mapping = fields@.mapping;
    let MessageField { desc, value } = field;
    let name: String = match prefix {
        Some(p) => {
            let mut n = p.clone();
            n.append(".");
            n.append(desc.name.as_str());
            n
        },
        None => desc.name.clone(),
    };
    proof {
        assert(name@ =~= dotted_name(prefix_view(*prefix), desc.name@));
    }
    match value {
        None => {
            proof {
                assert(terms_view(terms@) =~= terms_view(old(terms)@) + Seq::<DocTermView>::empty());
            }
        },
        Some(FieldValue::Message(subs)) => {
            add_fields_terms(&Some(name), subs, fields, terms, has_reference);
        },
        Some(v) => {
            match mapped_field(fields, &name) {
                Some((kind, slot)) => {
                    add_value_terms(&desc, v, kind, slot, terms, has_reference);
                },
                None => {
                    proof {
                        assert(terms_view(terms@) =~= terms_view(old(terms)@) + Seq::<DocTermView>::empty());
                    }
                },
            }
        },
    }
}

/// Adds the terms of the fields of a message named `prefix` (the top message
/// when none), one field after the other.
#[verifier::loop_isolation(false)]
fn add_fields_terms(
    prefix: &Option<String>,
    subs: Vec<MessageField>,
    fields: &MsgFields,
    terms: &mut Vec<DocTerm>,
    has_reference: &mut bool,
)
    ensures
        terms_view(final(terms)@) == terms_view(old(terms)@) + fields_terms(prefix_view(*prefix), subs@, fields@.mapping, subs@.len()).0,
        *final(has_reference) == (*old(has_reference) || fields_terms(prefix_view(*prefix), subs@, fields@.mapping, subs@.len()).1),
    decreases subs, 1int,
{
    let ghost subs_in = subs;
    let ghost s0 = subs@;
    let ghost pv = prefix_view(*prefix);
    let ghost mapping = fields@.mapping;
    let total = subs.len();
    let mut subs = subs;
    let mut k: usize = 0;
    proof {
        assert(terms_view(terms@) =~= terms_view(old(terms)@) + fields_terms(pv, s0, mapping, 0).0);
    }
    while subs.len() > 0
        invariant
            k <= s0.len(),
            s0.len() == total,
            subs@ == s0.skip(k as int),
            subs@.len() == total - k,
            s0 == subs_in@,
            pv == prefix_view(*prefix),
            mapping == fields@.mapping,
            terms_view(terms@) == terms_view(old(terms)@) + fields_terms(pv, s0, mapping, k as nat).0,
            *has_reference == (*old(has_reference) || fields_terms(pv, s0, mapping, k as nat).1),
        decreases subs@.len(),
    {
        let f = subs.remove(0);
        proof {
            assert(f == s0[k as int]);
            assert(subs@ =~= s0.skip(k as int + 1));
            assert(decreases_to!(subs_in => subs_in@));
            assert(decreases_to!(subs_in@ => subs_in@[k as int]));
            assert(decreases_to!(subs_in => f));
        }
        let ghost mid = terms@;
        add_field_terms(prefix, f, fields, terms, has_reference);
        proof {
            assert(terms_view(terms@) =~= terms_view(old(terms)@) + fields_terms(pv, s0, mapping, k as nat + 1).0);
        }
        k = k + 1;
    }
}

/// Terms indexed for a trait's message, and whether one of its fields is a
/// reference (the trait's document then gets flagged as having one).
pub struct MessageTerms {
    pub terms: Vec<DocTerm>,
    pub has_reference: bool,
}

/// Terms of a trait's message of the given name, by the fields mapping of
/// its message: none when the message has no mapping, since then none of
/// its fields is indexed.
pub fn trait_message_terms(mappings: &Vec<(String, MsgFields)>, message_name: &String, fields_of_message: Vec<MessageField>) -> (res: Option<MessageTerms>)
    ensures
        match res {
            None => !messages_map(mappings@).contains_key(message_name@),
            Some(m) => messages_map(mappings@).contains_key(message_name@) && {
                let expected = fields_terms(
                    None,
                    fields_of_message@,
                    messages_map(mappings@)[message_name@].mapping,
                    fields_of_message@.len(),
                );
                &&& terms_view(m.terms@) == expected.0
                &&& m.has_reference == expected.1
            },
        },
{
    let fields = match message_fields(mappings, message_name) {
        Some(f) => f,
        None => return None,
    };
    let mut terms: Vec<DocTerm> = Vec::new();
    let mut has_reference = false;
    add_fields_terms(&None, fields_of_message, fields, &mut terms, &mut has_reference);
    proof {
        assert(terms_view(Seq::<DocTerm>::empty()) =~= Seq::<DocTermView>::empty());
        let e = fields_terms(None, fields_of_message@, fields@.mapping, fields_of_message@.len()).0;
        assert(Seq::<DocTermView>::empty() + e =~= e);
    }
    Some(MessageTerms { terms, has_reference })
}

} // verus!
