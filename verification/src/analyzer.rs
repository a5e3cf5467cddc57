//! The schema analyzer: reads the JSON Schema documents of a contract into
//! the shapes of the messages that can be sent to it.
//!
//! A first pass over a document's `definitions` records the named structs
//! and base types. A second pass over its top-level keys records, under the
//! document's title, the variants of the message and the members of each.

use crate::json::{json_document, JsonValue};
use crate::strmap::StrMap;
use crate::text::{last_index_of, last_segment, rfind_slash, short_name, starts_with, str_eq};
use vstd::prelude::*;
use vstd::string::{StrSliceExecFns, StringExecFns};

verus! {

/// A field of a struct and the name of its type.
#[derive(Debug)]
pub struct StructType {
    pub member_name: String,
    pub member_type: String,
}

/// A member of a message: its name, and the primitive type or the struct
/// that it is declared with.
#[derive(Debug)]
pub struct Member {
    pub member_name: String,
    pub member_def: String,
}

/// A member, each field taken by its characters.
pub ghost struct MemberView {
    pub member_name: Seq<char>,
    pub member_def: Seq<char>,
}

impl DeepView for Member {
    type V = MemberView;

    open spec fn deep_view(&self) -> MemberView {
        MemberView { member_name: self.member_name@, member_def: self.member_def@ }
    }
}

impl DeepView for StructType {
    type V = (Seq<char>, Seq<char>);

    open spec fn deep_view(&self) -> (Seq<char>, Seq<char>) {
        (self.member_name@, self.member_type@)
    }
}

/// The text that a property is declared with: its `type`, and where it has
/// none its `$ref`.
pub open spec fn declared_type(prop: JsonValue) -> Option<Seq<char>> {
    match prop.spec_get("type"@) {
        Some(t) => t.spec_as_str(),
        None => match prop.spec_get("$ref"@) {
            Some(r) => r.spec_as_str(),
            None => None,
        },
    }
}

/// The `$ref` of a property, where it has one that is a string.
pub open spec fn reference_of(prop: JsonValue) -> Option<Seq<char>> {
    match prop.spec_get("$ref"@) {
        Some(r) => r.spec_as_str(),
        None => None,
    }
}

/// What a property resolves to: for an array the short name of the struct
/// that its items refer to, for a reference into the definitions the short
/// name of the struct, and else the name of the primitive type.
pub open spec fn resolved_def(prop: JsonValue) -> Option<Seq<char>> {
    match declared_type(prop) {
        None => None,
        Some(name) => if name == "array"@ {
            match prop.spec_get("items"@) {
                None => None,
                Some(items) => match reference_of(items) {
                    None => None,
                    Some(path) => Some(last_segment(path)),
                },
            }
        } else if "#/definitions"@.is_prefix_of(name) {
            Some(last_segment(name))
        } else {
            Some(name)
        },
    }
}

/// The member that one entry of a `required` list stands for, where the
/// entry is a string, `properties` declares it, and the declaration
/// resolves.
pub open spec fn required_member(req: JsonValue, properties: JsonValue) -> Option<MemberView> {
    match req.spec_as_str() {
        None => None,
        Some(name) => match properties.spec_get(name) {
            None => None,
            Some(prop) => match resolved_def(prop) {
                None => None,
                Some(def) => Some(MemberView { member_name: name, member_def: def }),
            },
        },
    }
}

/// The members of a `required` list, in its order; entries that stand for
/// no member are left out.
pub open spec fn members_of(reqs: Seq<JsonValue>, properties: JsonValue) -> Seq<MemberView>
    decreases reqs.len(),
{
    if reqs.len() == 0 {
        Seq::empty()
    } else {
        let rest = members_of(reqs.drop_last(), properties);
        match required_member(reqs.last(), properties) {
            Some(m) => rest.push(m),
            None => rest,
        }
    }
}

/// The variants after one shape is added: `required` and `properties`
/// describe the members of the variant `name`. A `required` that is no
/// array adds nothing.
pub open spec fn added_variant(
    required: JsonValue,
    properties: JsonValue,
    name: Seq<char>,
    variants: Map<Seq<char>, Seq<MemberView>>,
) -> Map<Seq<char>, Seq<MemberView>> {
    match required.spec_as_array() {
        Some(reqs) => variants.insert(name, members_of(reqs, properties)),
        None => variants,
    }
}

/// The fields of a struct that refer to another struct, each with the
/// short name of the struct referred to.
pub open spec fn struct_fields(props: Seq<(String, JsonValue)>) -> Map<Seq<char>, Seq<char>>
    decreases props.len(),
{
    if props.len() == 0 {
        Map::empty()
    } else {
        let rest = struct_fields(props.drop_last());
        match reference_of(props.last().1) {
            Some(path) => rest.insert(props.last().0@, last_segment(path)),
            None => rest,
        }
    }
}

/// What one entry of a document's definitions declares.
pub ghost enum Definition {
    /// A struct, with its fields that refer to another struct.
    Struct(Map<Seq<char>, Seq<char>>),
    /// A base type, with the primitive it stands for.
    Base(Seq<char>),
    /// Nothing that is recorded.
    Skipped,
}

/// What a definition declares: a struct where its type is `object` and it
/// has properties, a base type where its type is another string.
pub open spec fn definition_of(d: JsonValue) -> Definition {
    match d.spec_get("type"@) {
        None => Definition::Skipped,
        Some(t) => if t.spec_as_str() == Some("object"@) {
            match d.spec_get("properties"@) {
                None => Definition::Skipped,
                Some(p) => match p.spec_as_object() {
                    None => Definition::Skipped,
                    Some(props) => Definition::Struct(struct_fields(props)),
                },
            }
        } else {
            match t.spec_as_str() {
                None => Definition::Skipped,
                Some(name) => Definition::Base(name),
            }
        },
    }
}

/// The tables of base types and of structs after the definitions `defs`
/// are recorded, one after the other.
pub open spec fn definitions_pass(
    defs: Seq<(String, JsonValue)>,
    basetypes: Map<Seq<char>, Seq<char>>,
    structs: Map<Seq<char>, Map<Seq<char>, Seq<char>>>,
) -> (Map<Seq<char>, Seq<char>>, Map<Seq<char>, Map<Seq<char>, Seq<char>>>)
    decreases defs.len(),
{
    if defs.len() == 0 {
        (basetypes, structs)
    } else {
        let (b, s) = definitions_pass(defs.drop_last(), basetypes, structs);
        match definition_of(defs.last().1) {
            Definition::Struct(fields) => (b, s.insert(defs.last().0@, fields)),
            Definition::Base(name) => (b.insert(defs.last().0@, name), s),
            Definition::Skipped => (b, s),
        }
    }
}

/// The tables after a `definitions` section is read; a section that is no
/// object changes nothing.
pub open spec fn definitions_read(
    def: JsonValue,
    basetypes: Map<Seq<char>, Seq<char>>,
    structs: Map<Seq<char>, Map<Seq<char>, Seq<char>>>,
) -> (Map<Seq<char>, Seq<char>>, Map<Seq<char>, Map<Seq<char>, Seq<char>>>) {
    match def.spec_as_object() {
        Some(defs) => definitions_pass(defs, basetypes, structs),
        None => (basetypes, structs),
    }
}

/// The variants after one alternative of an `anyOf` is read. The
/// alternative names its variant by the first entry of its `required`
/// list; the schema of that property holds the variant's own `required`
/// and `properties`. An alternative that lacks any of these adds nothing,
/// and neither does the variant `null`.
pub open spec fn alternative_read(
    alt: JsonValue,
    variants: Map<Seq<char>, Seq<MemberView>>,
) -> Map<Seq<char>, Seq<MemberView>> {
    match variant_name(alt) {
        None => variants,
        Some(name) => match variant_schema(alt, name) {
            None => variants,
            Some(schema) => match (schema.spec_get("properties"@), schema.spec_get("required"@)) {
                (Some(properties), Some(required)) => if name == "null"@ {
                    variants
                } else {
                    added_variant(required, properties, name, variants)
                },
                _ => variants,
            },
        },
    }
}

/// The name of the variant that an alternative describes.
pub open spec fn variant_name(alt: JsonValue) -> Option<Seq<char>> {
    match alt.spec_get("required"@) {
        None => None,
        Some(required) => match required.spec_at(0) {
            None => None,
            Some(first) => first.spec_as_str(),
        },
    }
}

/// The schema that an alternative holds for its variant.
pub open spec fn variant_schema(alt: JsonValue, name: Seq<char>) -> Option<JsonValue> {
    match alt.spec_get("properties"@) {
        None => None,
        Some(properties) => properties.spec_get(name),
    }
}

/// The variants after the alternatives `alts` are read, one after the
/// other.
pub open spec fn alternatives_read(
    alts: Seq<JsonValue>,
    variants: Map<Seq<char>, Seq<MemberView>>,
) -> Map<Seq<char>, Seq<MemberView>>
    decreases alts.len(),
{
    if alts.len() == 0 {
        variants
    } else {
        alternative_read(alts.last(), alternatives_read(alts.drop_last(), variants))
    }
}

/// What reading a document has gathered so far.
pub ghost struct Gathered {
    pub basetypes: Map<Seq<char>, Seq<char>>,
    pub structs: Map<Seq<char>, Map<Seq<char>, Seq<char>>>,
    pub variants: Map<Seq<char>, Seq<MemberView>>,
}

/// What is gathered after one top-level member of the document `doc` is
/// read: `definitions` fills the tables of base types and structs,
/// `required` (with the document's `properties`) gives the variant named
/// by the title, `anyOf` gives one variant for each alternative. Any other
/// member changes nothing.
pub open spec fn key_read(
    doc: JsonValue,
    title: Seq<char>,
    key: Seq<char>,
    value: JsonValue,
    g: Gathered,
) -> Gathered {
    if key == "definitions"@ {
        let (b, s) = definitions_read(value, g.basetypes, g.structs);
        Gathered { basetypes: b, structs: s, variants: g.variants }
    } else if key == "required"@ {
        match doc.spec_get("properties"@) {
            None => g,
            Some(properties) => Gathered {
                basetypes: g.basetypes,
                structs: g.structs,
                variants: added_variant(value, properties, title, g.variants),
            },
        }
    } else if key == "anyOf"@ {
        match value.spec_as_array() {
            None => g,
            Some(alts) => Gathered {
                basetypes: g.basetypes,
                structs: g.structs,
                variants: alternatives_read(alts, g.variants),
            },
        }
    } else {
        g
    }
}

/// What is gathered after the top-level members `members` of `doc` are
/// read, one after the other.
pub open spec fn keys_read(
    doc: JsonValue,
    title: Seq<char>,
    members: Seq<(String, JsonValue)>,
    g: Gathered,
) -> Gathered
    decreases members.len(),
{
    if members.len() == 0 {
        g
    } else {
        key_read(
            doc,
            title,
            members.last().0@,
            members.last().1,
            keys_read(doc, title, members.drop_last(), g),
        )
    }
}

/// The title of a schema document, where it has one that is a string.
pub open spec fn title_of(doc: JsonValue) -> Option<Seq<char>> {
    match doc.spec_get("title"@) {
        Some(t) => t.spec_as_str(),
        None => None,
    }
}

/// The tables after the schema document `doc` is analyzed, starting from
/// the tables `before`; `None` where the document has no title. The
/// variants found are recorded under the title, in place of what was there.
pub open spec fn analyzed(doc: JsonValue, before: AnalyzerView) -> Option<AnalyzerView> {
    match (title_of(doc), doc.spec_as_object()) {
        (Some(title), Some(members)) => {
            let g = keys_read(
                doc,
                title,
                members,
                Gathered {
                    basetypes: before.basetypes,
                    structs: before.structs,
                    variants: Map::empty(),
                },
            );
            Some(
                AnalyzerView {
                    basetypes: g.basetypes,
                    structs: g.structs,
                    members: before.members.insert(title, g.variants),
                },
            )
        },
        _ => None,
    }
}

/// The tables after a schema text is analyzed: unchanged where the text is
/// no JSON or the document has no title.
pub open spec fn analyzed_text(doc: Option<JsonValue>, before: AnalyzerView) -> Option<
    AnalyzerView,
> {
    match doc {
        Some(d) => analyzed(d, before),
        None => None,
    }
}

/// The directory in which the schema documents of a contract are looked
/// for: `schema`, beside the contract's bytecode file. A path without `/`
/// names no such directory.
pub open spec fn schema_dir_of(path: Seq<char>) -> Option<Seq<char>> {
    match last_index_of(path, '/') {
        Some(i) => Some(path.subrange(0, i) + "/schema"@),
        None => None,
    }
}

/// The analyzer's tables.
#[derive(Debug)]
pub struct Analyzer {
    /// Each named base type and the primitive it stands for.
    pub map_of_basetype: StrMap<String>,
    /// Each named struct with its fields that refer to another struct, and
    /// the short name of the struct referred to.
    pub map_of_struct: StrMap<StrMap<String>>,
    /// Each document title with its variants and their members.
    pub map_of_member: StrMap<StrMap<Vec<Member>>>,
}

/// The analyzer's tables as maps.
pub ghost struct AnalyzerView {
    pub basetypes: Map<Seq<char>, Seq<char>>,
    pub structs: Map<Seq<char>, Map<Seq<char>, Seq<char>>>,
    pub members: Map<Seq<char>, Map<Seq<char>, Seq<MemberView>>>,
}

/// Every map inside `m` is well formed.
pub open spec fn inner_wf<V: DeepView>(m: StrMap<StrMap<V>>) -> bool {
    forall|i: int| 0 <= i < m.listing().len() ==> (#[trigger] m.listing()[i]).1.wf()
}

impl View for Analyzer {
    type V = AnalyzerView;

    open spec fn view(&self) -> AnalyzerView {
        AnalyzerView {
            basetypes: self.map_of_basetype.deep_view(),
            structs: self.map_of_struct.deep_view(),
            members: self.map_of_member.deep_view(),
        }
    }
}

impl Analyzer {
    /// The tables are well formed: no table, and no map inside one, holds a
    /// key twice.
    pub open spec fn wf(&self) -> bool {
        &&& self.map_of_basetype.wf()
        &&& self.map_of_struct.wf()
        &&& self.map_of_member.wf()
        &&& inner_wf(self.map_of_struct)
        &&& inner_wf(self.map_of_member)
    }

    /// Tables without entries.
    pub open spec fn default_view() -> AnalyzerView {
        AnalyzerView { basetypes: Map::empty(), structs: Map::empty(), members: Map::empty() }
    }

    /// An analyzer with empty tables.
    pub fn default() -> (r: Self)
        ensures
            r.wf(),
            r@ == Analyzer::default_view(),
    {
        Analyzer {
            map_of_basetype: StrMap::new(),
            map_of_struct: StrMap::new(),
            map_of_member: StrMap::new(),
        }
    }

    /// The text that a property is declared with.
    fn declared(prop: &JsonValue) -> (r: Option<&String>)
        ensures
            match r {
                Some(s) => declared_type(*prop) == Some(s@),
                None => declared_type(*prop) is None,
            },
    {
        match prop.get("type") {
            Some(t) => t.as_str(),
            None => match prop.get("$ref") {
                Some(r) => r.as_str(),
                None => None,
            },
        }
    }

    /// The `$ref` of a property.
    fn reference(prop: &JsonValue) -> (r: Option<&String>)
        ensures
            match r {
                Some(s) => reference_of(*prop) == Some(s@),
                None => reference_of(*prop) is None,
            },
    {
        match prop.get("$ref") {
            Some(r) => r.as_str(),
            None => None,
        }
    }

    /// What a property resolves to.
    fn resolve(prop: &JsonValue) -> (r: Option<String>)
        ensures
            match r {
                Some(s) => resolved_def(*prop) == Some(s@),
                None => resolved_def(*prop) is None,
            },
    {
        let name = match Analyzer::declared(prop) {
            Some(name) => name,
            None => {
                return None;
            },
        };
        if str_eq(name.as_str(), "array") {
            let items = match prop.get("items") {
                Some(items) => items,
                None => {
                    return None;
                },
            };
            match Analyzer::reference(items) {
                Some(path) => Some(short_name(path.as_str())),
                None => None,
            }
        } else if starts_with(name.as_str(), "#/definitions") {
            Some(short_name(name.as_str()))
        } else {
            Some(name.clone())
        }
    }

    /// The member that one entry of a `required` list stands for.
    fn member_for(req: &JsonValue, properties: &JsonValue) -> (r: Option<Member>)
        ensures
            match r {
                Some(m) => required_member(*req, *properties) == Some(m.deep_view()),
                None => required_member(*req, *properties) is None,
            },
    {
        let name = match req.as_str() {
            Some(name) => name,
            None => {
                return None;
            },
        };
        let prop = match properties.get(name.as_str()) {
            Some(prop) => prop,
            None => {
                return None;
            },
        };
        match Analyzer::resolve(prop) {
            Some(def) => Some(Member { member_name: name.clone(), member_def: def }),
            None => None,
        }
    }

    /// Records under `mem_name` the members that `required` lists and
    /// `properties` declares, in the order of the list, in place of what
    /// `mapper` held under that name. An entry of the list that is no
    /// string, is not declared, or does not resolve is left out. Where
    /// `required` is no array nothing is recorded, and the answer is
    /// `false`.
    pub fn build_member(
        required: &JsonValue,
        properties: &JsonValue,
        mem_name: &String,
        mapper: &mut StrMap<Vec<Member>>,
    ) -> (r: bool)
        requires
            old(mapper).wf(),
        ensures
            final(mapper).wf(),
            r == required.spec_as_array().is_some(),
            final(mapper).deep_view() == added_variant(
                *required,
                *properties,
                mem_name@,
                old(mapper).deep_view(),
            ),
    {
        let reqs = match required.as_array() {
            Some(reqs) => reqs,
            None => {
                return false;
            },
        };
        let mut members: Vec<Member> = Vec::new();
        let mut i: usize = 0;
        assert(members.deep_view() =~= members_of(reqs@.take(0), *properties));
        while i < reqs.len()
            invariant
                i <= reqs@.len(),
                members.deep_view() == members_of(reqs@.take(i as int), *properties),
            decreases reqs@.len() - i,
        {
            proof {
                assert(reqs@.take(i + 1).drop_last() =~= reqs@.take(i as int));
                assert(reqs@.take(i + 1).last() == reqs@[i as int]);
            }
            match Analyzer::member_for(&reqs[i], properties) {
                Some(m) => {
                    let ghost before = members.deep_view();
                    let ghost mv = m.deep_view();
                    members.push(m);
                    assert(members.deep_view() =~= before.push(mv));
                },
                None => {},
            }
            i = i + 1;
        }
        assert(reqs@.take(i as int) =~= reqs@);
        mapper.insert(mem_name.clone(), members);
        true
    }

    /// The fields of a struct that refer to another struct.
    fn fields_of(props: &Vec<(String, JsonValue)>) -> (r: StrMap<String>)
        ensures
            r.wf(),
            r.deep_view() == struct_fields(props@),
    {
        let mut fields: StrMap<String> = StrMap::new();
        let mut i: usize = 0;
        assert(props@.take(0) =~= Seq::<(String, JsonValue)>::empty());
        while i < props.len()
            invariant
                i <= props@.len(),
                fields.wf(),
                fields.deep_view() == struct_fields(props@.take(i as int)),
            decreases props@.len() - i,
        {
            proof {
                assert(props@.take(i + 1).drop_last() =~= props@.take(i as int));
                assert(props@.take(i + 1).last() == props@[i as int]);
            }
            match Analyzer::reference(&props[i].1) {
                Some(path) => {
                    fields.insert(props[i].0.clone(), short_name(path.as_str()));
                },
                None => {},
            }
            i = i + 1;
        }
        assert(props@.take(i as int) =~= props@);
        fields
    }

    /// Records what one definition declares.
    fn record_definition(
        name: &String,
        d: &JsonValue,
        base_type: &mut StrMap<String>,
        struct_type: &mut StrMap<StrMap<String>>,
    )
        requires
            old(base_type).wf(),
            old(struct_type).wf(),
            inner_wf(*old(struct_type)),
        ensures
            final(base_type).wf(),
            final(struct_type).wf(),
            inner_wf(*final(struct_type)),
            (final(base_type).deep_view(), final(struct_type).deep_view()) == (match definition_of(
                *d,
            ) {
                Definition::Struct(fields) => (
                    old(base_type).deep_view(),
                    old(struct_type).deep_view().insert(name@, fields),
                ),
                Definition::Base(prim) => (
                    old(base_type).deep_view().insert(name@, prim),
                    old(struct_type).deep_view(),
                ),
                Definition::Skipped => (old(base_type).deep_view(), old(struct_type).deep_view()),
            }),
    {
        let type_def = match d.get("type") {
            Some(t) => t,
            None => {
                return ;
            },
        };
        let declared_as = match type_def.as_str() {
            Some(s) => s,
            None => {
                return ;
            },
        };
        if str_eq(declared_as.as_str(), "object") {
            let props = match d.get("properties") {
                Some(p) => match p.as_object() {
                    Some(props) => props,
                    None => {
                        return ;
                    },
                },
                None => {
                    return ;
                },
            };
            let fields = Analyzer::fields_of(props);
            struct_type.insert(name.clone(), fields);
        } else {
            base_type.insert(name.clone(), declared_as.clone());
        }
    }

    /// Reads the `definitions` section of a schema document. A definition
    /// of type `object` is recorded in `struct_type` with those of its
    /// properties that refer to another definition, each with the short
    /// name of the definition referred to; a definition of another type is
    /// recorded in `base_type` with that type. A definition without a type,
    /// or an object without properties, is passed over. Where the section
    /// is no object nothing is recorded, and the answer is `false`.
    pub fn prepare_definitions(
        def: &JsonValue,
        base_type: &mut StrMap<String>,
        struct_type: &mut StrMap<StrMap<String>>,
    ) -> (r: bool)
        requires
            old(base_type).wf(),
            old(struct_type).wf(),
            inner_wf(*old(struct_type)),
        ensures
            final(base_type).wf(),
            final(struct_type).wf(),
            inner_wf(*final(struct_type)),
            r == def.spec_as_object().is_some(),
            (final(base_type).deep_view(), final(struct_type).deep_view()) == definitions_read(
                *def,
                old(base_type).deep_view(),
                old(struct_type).deep_view(),
            ),
    {
        let defs = match def.as_object() {
            Some(defs) => defs,
            None => {
                return false;
            },
        };
        let ghost b0 = base_type.deep_view();
        let ghost s0 = struct_type.deep_view();
        let mut i: usize = 0;
        assert(defs@.take(0) =~= Seq::<(String, JsonValue)>::empty());
        while i < defs.len()
            invariant
                i <= defs@.len(),
                base_type.wf(),
                struct_type.wf(),
                inner_wf(*struct_type),
                (base_type.deep_view(), struct_type.deep_view()) == definitions_pass(
                    defs@.take(i as int),
                    b0,
                    s0,
                ),
            decreases defs@.len() - i,
        {
            proof {
                assert(defs@.take(i + 1).drop_last() =~= defs@.take(i as int));
                assert(defs@.take(i + 1).last() == defs@[i as int]);
            }
            Analyzer::record_definition(&defs[i].0, &defs[i].1, base_type, struct_type);
            i = i + 1;
        }
        assert(defs@.take(i as int) =~= defs@);
        true
    }

    /// Reads one alternative of an `anyOf`.
    fn read_alternative(alt: &JsonValue, variants: &mut StrMap<Vec<Member>>)
        requires
            old(variants).wf(),
        ensures
            final(variants).wf(),
            final(variants).deep_view() == alternative_read(*alt, old(variants).deep_view()),
    {
        let name = match alt.get("required") {
            Some(required) => match required.at(0) {
                Some(first) => match first.as_str() {
                    Some(name) => name,
                    None => {
                        return ;
                    },
                },
                None => {
                    return ;
                },
            },
            None => {
                return ;
            },
        };
        let schema = match alt.get("properties") {
            Some(properties) => match properties.get(name.as_str()) {
                Some(schema) => schema,
                None => {
                    return ;
                },
            },
            None => {
                return ;
            },
        };
        let properties = match schema.get("properties") {
            Some(p) => p,
            None => {
                return ;
            },
        };
        let required = match schema.get("required") {
            Some(r) => r,
            None => {
                return ;
            },
        };
        if !str_eq(name.as_str(), "null") {
            Analyzer::build_member(required, properties, name, variants);
        }
    }

    /// Reads the alternatives of an `anyOf`, one after the other.
    fn read_alternatives(alts: &Vec<JsonValue>, variants: &mut StrMap<Vec<Member>>)
        requires
            old(variants).wf(),
        ensures
            final(variants).wf(),
            final(variants).deep_view() == alternatives_read(alts@, old(variants).deep_view()),
    {
        let ghost v0 = variants.deep_view();
        let mut i: usize = 0;
        assert(alts@.take(0) =~= Seq::<JsonValue>::empty());
        while i < alts.len()
            invariant
                i <= alts@.len(),
                variants.wf(),
                variants.deep_view() == alternatives_read(alts@.take(i as int), v0),
            decreases alts@.len() - i,
        {
            proof {
                assert(alts@.take(i + 1).drop_last() =~= alts@.take(i as int));
                assert(alts@.take(i + 1).last() == alts@[i as int]);
            }
            Analyzer::read_alternative(&alts[i], variants);
            i = i + 1;
        }
        assert(alts@.take(i as int) =~= alts@);
    }

    /// Analyzes one schema document. Its title is mandatory: without one
    /// nothing is recorded, and the answer is `false`. Else the document's
    /// `definitions` are recorded in the tables of base types and structs,
    /// and the variants that its `required` list and its `anyOf` describe
    /// are recorded under the title.
    pub fn analyze_document(&mut self, doc: &JsonValue) -> (r: bool)
        requires
            old(self).wf(),
        ensures
            final(self).wf(),
            match analyzed(*doc, old(self)@) {
                Some(v) => r && final(self)@ == v,
                None => !r && final(self)@ == old(self)@,
            },
    {
        let title = match doc.get("title") {
            Some(t) => match t.as_str() {
                Some(title) => title,
                None => {
                    return false;
                },
            },
            None => {
                return false;
            },
        };
        let members = match doc.as_object() {
            Some(members) => members,
            None => {
                return false;
            },
        };
        let ghost before = self@;
        let ghost g0 = Gathered {
            basetypes: before.basetypes,
            structs: before.structs,
            variants: Map::empty(),
        };
        let mut variants: StrMap<Vec<Member>> = StrMap::new();
        let mut i: usize = 0;
        assert(members@.take(0) =~= Seq::<(String, JsonValue)>::empty());
        while i < members.len()
            invariant
                i <= members@.len(),
                self.wf(),
                variants.wf(),
                self@.members == before.members,
                (Gathered {
                    basetypes: self@.basetypes,
                    structs: self@.structs,
                    variants: variants.deep_view(),
                }) == keys_read(*doc, title@, members@.take(i as int), g0),
            decreases members@.len() - i,
        {
            proof {
                assert(members@.take(i + 1).drop_last() =~= members@.take(i as int));
                assert(members@.take(i + 1).last() == members@[i as int]);
            }
            let key = members[i].0.as_str();
            let value = &members[i].1;
            if str_eq(key, "definitions") {
                Analyzer::prepare_definitions(
                    value,
                    &mut self.map_of_basetype,
                    &mut self.map_of_struct,
                );
            } else if str_eq(key, "required") {
                match doc.get("properties") {
                    Some(properties) => {
                        Analyzer::build_member(value, properties, title, &mut variants);
                    },
                    None => {},
                }
            } else if str_eq(key, "anyOf") {
                match value.as_array() {
                    Some(alts) => {
                        Analyzer::read_alternatives(alts, &mut variants);
                    },
                    None => {},
                }
            }
            i = i + 1;
        }
        assert(members@.take(i as int) =~= members@);
        proof {
            lemma_inner_wf_insert(self.map_of_member, *title, variants);
        }
        self.map_of_member.insert(title.clone(), variants);
        true
    }

    /// Analyzes the text of one schema document. A text that is no JSON, or
    /// a document without a title, changes nothing and is answered with
    /// `false`.
    pub fn analyze_schema(&mut self, data: &[u8]) -> (r: bool)
        requires
            old(self).wf(),
        ensures
            final(self).wf(),
            match analyzed_text(json_document(data@), old(self)@) {
                Some(v) => r && final(self)@ == v,
                None => !r && final(self)@ == old(self)@,
            },
    {
        match JsonValue::parse(data) {
            Some(doc) => self.analyze_document(&doc),
            None => false,
        }
    }

    /// The directory in which the schema documents of the contract at
    /// `file_path` are looked for.
    pub fn schema_dir(file_path: &str) -> (r: Option<String>)
        ensures
            match r {
                Some(dir) => schema_dir_of(file_path@) == Some(dir@),
                None => schema_dir_of(file_path@) is None,
            },
    {
        proof {
            crate::text::lemma_last_index_of(file_path@, '/');
        }
        match rfind_slash(file_path) {
            Some(i) => Some(String::from_str(file_path.substring_char(0, i)).concat("/schema")),
            None => None,
        }
    }
}

/// A table of well-formed maps stays one when a well-formed map is stored
/// in it.
proof fn lemma_inner_wf_insert<V: DeepView>(m: StrMap<StrMap<V>>, key: String, value: StrMap<V>)
    requires
        m.wf(),
        inner_wf(m),
        value.wf(),
    ensures
        forall|i: int|
            0 <= i < crate::strmap::listing_with(m.listing(), key, value).len() ==> (
            #[trigger] crate::strmap::listing_with(m.listing(), key, value)[i]).1.wf(),
{
    let s = m.listing();
    let t = crate::strmap::listing_with(s, key, value);
    assert forall|i: int| 0 <= i < t.len() implies (#[trigger] t[i]).1.wf() by {
        if crate::strmap::names(s, key@) {
            let p = crate::strmap::place(s, key@);
            if i != p {
                assert(t[i] == s[i]);
            }
        } else {
            if i < s.len() {
                assert(t[i] == s[i]);
            }
        }
    }
}

} // verus!
