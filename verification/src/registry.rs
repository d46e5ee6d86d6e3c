//! The immutable type registry of a schema: one entry per named type, a
//! side table of interface implementations, and the root type names.

use vstd::prelude::*;
use vstd::string::StringExecFns;

verus! {

/// Cache-control metadata, propagated but not enforced.
#[derive(Clone, Copy, PartialEq, Eq, Structural, Debug)]
pub struct CacheControl {
    pub public: bool,
    pub max_age: usize,
}

impl Default for CacheControl {
    /// Public, with no max age.
    fn default() -> (r: Self)
        ensures
            r.public == true && r.max_age == 0,
    {
        CacheControl { public: true, max_age: 0 }
    }
}

/// A declared argument or input field.
pub struct MetaInputValue {
    pub name: String,
    pub description: Option<String>,
    pub ty: String,
    pub default_value: Option<String>,
}

/// A resolvable field of an object or interface type.
pub struct MetaField {
    pub name: String,
    pub description: Option<String>,
    pub args: Vec<(String, MetaInputValue)>,
    pub ty: String,
    pub deprecation: Option<String>,
    pub cache_control: CacheControl,
    pub external: bool,
    pub requires: Option<String>,
    pub provides: Option<String>,
}

/// The registry entry for one named type.
pub enum MetaType {
    Scalar {
        name: String,
        description: Option<String>,
    },
    Object {
        name: String,
        description: Option<String>,
        fields: Vec<(String, MetaField)>,
        cache_control: CacheControl,
        extends: bool,
        keys: Option<Vec<String>>,
    },
    Interface {
        name: String,
        description: Option<String>,
        fields: Vec<(String, MetaField)>,
        possible_types: Vec<String>,
        extends: bool,
        keys: Option<Vec<String>>,
    },
    Union {
        name: String,
        description: Option<String>,
        possible_types: Vec<String>,
    },
    Enum {
        name: String,
        description: Option<String>,
        enum_values: Vec<String>,
    },
    InputObject {
        name: String,
        description: Option<String>,
        input_fields: Vec<MetaInputValue>,
    },
}

/// Mathematical model of an input value declaration.
#[verifier::ext_equal]
pub struct MetaInputValueV {
    pub name: Seq<char>,
    pub description: Option<Seq<char>>,
    pub ty: Seq<char>,
    pub default_value: Option<Seq<char>>,
}

/// Mathematical model of a field declaration.
#[verifier::ext_equal]
pub struct MetaFieldV {
    pub name: Seq<char>,
    pub description: Option<Seq<char>>,
    pub args: Seq<(Seq<char>, MetaInputValueV)>,
    pub ty: Seq<char>,
    pub deprecation: Option<Seq<char>>,
    pub cache_control: CacheControl,
    pub external: bool,
    pub requires: Option<Seq<char>>,
    pub provides: Option<Seq<char>>,
}

/// Mathematical model of a registry entry.
pub enum MetaTypeV {
    Scalar {
        name: Seq<char>,
        description: Option<Seq<char>>,
    },
    Object {
        name: Seq<char>,
        description: Option<Seq<char>>,
        fields: Seq<(Seq<char>, MetaFieldV)>,
        cache_control: CacheControl,
        extends: bool,
        keys: Option<Seq<Seq<char>>>,
    },
    Interface {
        name: Seq<char>,
        description: Option<Seq<char>>,
        fields: Seq<(Seq<char>, MetaFieldV)>,
        possible_types: Seq<Seq<char>>,
        extends: bool,
        keys: Option<Seq<Seq<char>>>,
    },
    Union {
        name: Seq<char>,
        description: Option<Seq<char>>,
        possible_types: Seq<Seq<char>>,
    },
    Enum {
        name: Seq<char>,
        description: Option<Seq<char>>,
        enum_values: Seq<Seq<char>>,
    },
    InputObject {
        name: Seq<char>,
        description: Option<Seq<char>>,
        input_fields: Seq<MetaInputValueV>,
    },
}

pub open spec fn opt_string_view(o: Option<String>) -> Option<Seq<char>> {
    match o {
        Some(s) => Some(s@),
        None => None,
    }
}

pub open spec fn string_seq_view(s: Seq<String>) -> Seq<Seq<char>> {
    s.map_values(|x: String| x@)
}

pub open spec fn opt_strings_view(o: Option<Vec<String>>) -> Option<Seq<Seq<char>>> {
    match o {
        Some(v) => Some(string_seq_view(v@)),
        None => None,
    }
}

pub open spec fn meta_input_value_view(v: MetaInputValue) -> MetaInputValueV {
    MetaInputValueV {
        name: v.name@,
        description: opt_string_view(v.description),
        ty: v.ty@,
        default_value: opt_string_view(v.default_value),
    }
}

impl View for MetaInputValue {
    type V = MetaInputValueV;

    open spec fn view(&self) -> MetaInputValueV {
        meta_input_value_view(*self)
    }
}

pub open spec fn meta_field_view(f: MetaField) -> MetaFieldV {
    MetaFieldV {
        name: f.name@,
        description: opt_string_view(f.description),
        args: f.args@.map_values(
            |p: (String, MetaInputValue)| (p.0@, meta_input_value_view(p.1)),
        ),
        ty: f.ty@,
        deprecation: opt_string_view(f.deprecation),
        cache_control: f.cache_control,
        external: f.external,
        requires: opt_string_view(f.requires),
        provides: opt_string_view(f.provides),
    }
}

impl View for MetaField {
    type V = MetaFieldV;

    open spec fn view(&self) -> MetaFieldV {
        meta_field_view(*self)
    }
}

pub open spec fn fields_view(fs: Seq<(String, MetaField)>) -> Seq<(Seq<char>, MetaFieldV)> {
    fs.map_values(|p: (String, MetaField)| (p.0@, meta_field_view(p.1)))
}

pub open spec fn meta_type_view(t: MetaType) -> MetaTypeV {
    match t {
        MetaType::Scalar { name, description } => MetaTypeV::Scalar {
            name: name@,
            description: opt_string_view(description),
        },
        MetaType::Object { name, description, fields, cache_control, extends, keys } => {
            MetaTypeV::Object {
                name: name@,
                description: opt_string_view(description),
                fields: fields_view(fields@),
                cache_control,
                extends,
                keys: opt_strings_view(keys),
            }
        },
        MetaType::Interface { name, description, fields, possible_types, extends, keys } => {
            MetaTypeV::Interface {
                name: name@,
                description: opt_string_view(description),
                fields: fields_view(fields@),
                possible_types: string_seq_view(possible_types@),
                extends,
                keys: opt_strings_view(keys),
            }
        },
        MetaType::Union { name, description, possible_types } => MetaTypeV::Union {
            name: name@,
            description: opt_string_view(description),
            possible_types: string_seq_view(possible_types@),
        },
        MetaType::Enum { name, description, enum_values } => MetaTypeV::Enum {
            name: name@,
            description: opt_string_view(description),
            enum_values: string_seq_view(enum_values@),
        },
        MetaType::InputObject { name, description, input_fields } => MetaTypeV::InputObject {
            name: name@,
            description: opt_string_view(description),
            input_fields: input_fields@.map_values(|v: MetaInputValue| meta_input_value_view(v)),
        },
    }
}

impl View for MetaType {
    type V = MetaTypeV;

    open spec fn view(&self) -> MetaTypeV {
        meta_type_view(*self)
    }
}

/// The immutable type catalog of a schema.
pub struct Registry {
    /// Registered types, in registration order, keyed by type name.
    pub types: Vec<(String, MetaType)>,
    /// For each type name, the interfaces it implements.
    pub implements: Vec<(String, Vec<String>)>,
    /// The root query type name.
    pub query_type: String,
    /// The root mutation type name, if mutations are configured.
    pub mutation_type: Option<String>,
    /// The root subscription type name, if subscriptions are configured.
    pub subscription_type: Option<String>,
}

/// Mathematical model of a [`Registry`].
pub struct RegistryV {
    pub types: Seq<(Seq<char>, MetaTypeV)>,
    pub implements: Seq<(Seq<char>, Seq<Seq<char>>)>,
    pub query_type: Seq<char>,
    pub mutation_type: Option<Seq<char>>,
    pub subscription_type: Option<Seq<char>>,
}

pub open spec fn registry_view(r: Registry) -> RegistryV {
    RegistryV {
        types: r.types@.map_values(|p: (String, MetaType)| (p.0@, meta_type_view(p.1))),
        implements: r.implements@.map_values(
            |p: (String, Vec<String>)| (p.0@, string_seq_view(p.1@)),
        ),
        query_type: r.query_type@,
        mutation_type: opt_string_view(r.mutation_type),
        subscription_type: opt_string_view(r.subscription_type),
    }
}

impl View for Registry {
    type V = RegistryV;

    open spec fn view(&self) -> RegistryV {
        registry_view(*self)
    }
}

/// The first entry of an association list bound to `name`, if any.
pub open spec fn assoc_get<T>(ps: Seq<(Seq<char>, T)>, name: Seq<char>) -> Option<T>
    decreases ps.len(),
{
    if ps.len() == 0 {
        None
    } else if ps[0].0 == name {
        Some(ps[0].1)
    } else {
        assoc_get(ps.skip(1), name)
    }
}

/// The registered type of that name, if any.
pub open spec fn reg_type(r: RegistryV, name: Seq<char>) -> Option<MetaTypeV> {
    assoc_get(r.types, name)
}

/// The interfaces a type is recorded as implementing.
pub open spec fn reg_implements(r: RegistryV, name: Seq<char>) -> Seq<Seq<char>> {
    match assoc_get(r.implements, name) {
        Some(is) => is,
        None => Seq::empty(),
    }
}

/// In an association list whose first binding of `name` is at `j`, lookup
/// finds exactly that binding.
pub proof fn lemma_assoc_first<T>(ps: Seq<(Seq<char>, T)>, name: Seq<char>, j: int)
    requires
        0 <= j < ps.len(),
        ps[j].0 == name,
        forall|k: int| 0 <= k < j ==> ps[k].0 != name,
    ensures
        assoc_get(ps, name) == Some(ps[j].1),
    decreases j,
{
    if j > 0 {
        lemma_assoc_first(ps.skip(1), name, j - 1);
    }
}

/// A scan that saw no binding of `name` finds none.
pub proof fn lemma_assoc_none<T>(ps: Seq<(Seq<char>, T)>, name: Seq<char>)
    requires
        forall|k: int| 0 <= k < ps.len() ==> ps[k].0 != name,
    ensures
        assoc_get(ps, name) is None,
    decreases ps.len(),
{
    if ps.len() > 0 {
        lemma_assoc_none(ps.skip(1), name);
    }
}

impl MetaType {
    /// The name this entry is registered under.
    pub open spec fn name_spec(self) -> Seq<char> {
        match meta_type_view(self) {
            MetaTypeV::Scalar { name, .. } => name,
            MetaTypeV::Object { name, .. } => name,
            MetaTypeV::Interface { name, .. } => name,
            MetaTypeV::Union { name, .. } => name,
            MetaTypeV::Enum { name, .. } => name,
            MetaTypeV::InputObject { name, .. } => name,
        }
    }

    /// The resolvable field `name` of this entry: objects and interfaces
    /// have fields; scalars, unions, enums and input objects have none.
    pub fn field_by_name(&self, name: &String) -> (r: Option<&MetaField>)
        ensures
            match r {
                Some(f) => self.fields_spec() matches Some(fs) && assoc_get(fs, name@) == Some(
                    meta_field_view(*f),
                ),
                None => match self.fields_spec() {
                    Some(fs) => assoc_get(fs, name@) is None,
                    None => true,
                },
            },
    {
        match self {
            MetaType::Object { fields, .. } => field_lookup(fields, name),
            MetaType::Interface { fields, .. } => field_lookup(fields, name),
            _ => None,
        }
    }

    /// The field table of this entry, if it is an object or interface.
    pub open spec fn fields_spec(self) -> Option<Seq<(Seq<char>, MetaFieldV)>> {
        match meta_type_view(self) {
            MetaTypeV::Object { fields, .. } => Some(fields),
            MetaTypeV::Interface { fields, .. } => Some(fields),
            _ => None,
        }
    }
}

/// Looks up a field by name in a field table.
#[verifier::loop_isolation(false)]
fn field_lookup<'a>(fields: &'a Vec<(String, MetaField)>, name: &String) -> (r: Option<
    &'a MetaField,
>)
    ensures
        match r {
            Some(f) => assoc_get(fields_view(fields@), name@) == Some(meta_field_view(*f)),
            None => assoc_get(fields_view(fields@), name@) is None,
        },
{
    let ghost fsv = fields_view(fields@);
    let n = fields.len();
    for j in 0..n
        invariant
            n == fields@.len(),
            fsv.len() == n,
            forall|k: int| 0 <= k < n ==> fsv[k] == (fields@[k].0@, meta_field_view(fields@[k].1)),
            forall|k: int| 0 <= k < j ==> fsv[k].0 != name@,
        decreases n - j,
    {
        if crate::context::str_eq_lit(&fields[j].0, name.as_str()) {
            proof {
                lemma_assoc_first(fsv, name@, j as int);
            }
            return Some(&fields[j].1);
        }
    }
    proof {
        lemma_assoc_none(fsv, name@);
    }
    None
}

impl Registry {
    /// A registry with no types, rooted at a query type to be registered.
    pub fn new(query_type: String) -> (r: Registry)
        ensures
            r@.types =~= Seq::<(Seq<char>, MetaTypeV)>::empty(),
            r@.implements =~= Seq::<(Seq<char>, Seq<Seq<char>>)>::empty(),
            r@.query_type == query_type@,
            r@.mutation_type is None,
            r@.subscription_type is None,
    {
        Registry {
            types: Vec::new(),
            implements: Vec::new(),
            query_type,
            mutation_type: None,
            subscription_type: None,
        }
    }

    /// The registered type named `name`, if any.
    #[verifier::loop_isolation(false)]
    pub fn get_type(&self, name: &String) -> (r: Option<&MetaType>)
        ensures
            match r {
                Some(t) => reg_type(self@, name@) == Some(meta_type_view(*t)),
                None => reg_type(self@, name@) is None,
            },
    {
        let ghost tsv = self@.types;
        let n = self.types.len();
        for j in 0..n
            invariant
                n == self.types@.len(),
                tsv.len() == n,
                forall|k: int|
                    0 <= k < n ==> tsv[k] == (
                    self.types@[k].0@,
                    meta_type_view(self.types@[k].1),
                    ),
                forall|k: int| 0 <= k < j ==> tsv[k].0 != name@,
            decreases n - j,
        {
            if crate::context::str_eq_lit(&self.types[j].0, name.as_str()) {
                proof {
                    lemma_assoc_first(tsv, name@, j as int);
                }
                return Some(&self.types[j].1);
            }
        }
        proof {
            lemma_assoc_none(tsv, name@);
        }
        None
    }

    /// Whether a type of that name is registered.
    pub fn has_type(&self, name: &String) -> (r: bool)
        ensures
            r == (reg_type(self@, name@) is Some),
    {
        match self.get_type(name) {
            Some(_) => true,
            None => false,
        }
    }

    /// Idempotent registration: if `name` is already present the registry
    /// is unchanged; otherwise the entry is appended.  Returns the name.
    #[verifier::loop_isolation(false)]
    pub fn create_type(&mut self, name: &String, info: MetaType) -> (r: String)
        ensures
            r@ == name@,
            reg_type(old(self)@, name@) is Some ==> final (self)@ == old(self)@,
            reg_type(old(self)@, name@) is None ==> final (self)@.types == old(self)@.types.push(
                (name@, meta_type_view(info)),
            ) && final (self)@.implements == old(self)@.implements && final (self)@.query_type
                == old(self)@.query_type && final (self)@.mutation_type == old(
                self,
            )@.mutation_type && final (self)@.subscription_type == old(self)@.subscription_type,
    {
        let ghost iv = meta_type_view(info);
        if self.has_type(name) {
            return name.clone();
        }
        self.types.push((name.clone(), info));
        proof {
            assert(self@.types =~= old(self)@.types.push((name@, iv)));
        }
        name.clone()
    }

    /// Idempotent registration together with its effect on lookups: the
    /// name is registered afterwards, and every name already registered
    /// stays registered.
    pub fn register_type(&mut self, name: &String, info: MetaType) -> (r: String)
        ensures
            r@ == name@,
            reg_type(final (self)@, name@) is Some,
            forall|nm: Seq<char>|
                #[trigger] reg_type(old(self)@, nm) is Some ==> reg_type(final (self)@, nm)
                    is Some,
    {
        let ghost reg0 = self@;
        let ghost iv = meta_type_view(info);
        let r = self.create_type(name, info);
        proof {
            if reg_type(reg0, name@) is None {
                lemma_assoc_push_present(reg0.types, name@, iv);
                assert forall|nm: Seq<char>| #[trigger] reg_type(reg0, nm) is Some
                    implies reg_type(self@, nm) is Some by {
                    if nm != name@ {
                        lemma_assoc_push_other(reg0.types, nm, name@, iv);
                    }
                };
            }
        }
        r
    }

    /// Records that type `ty` implements interface `iface`; the interface
    /// is appended to the type's set unless already recorded.
    #[verifier::loop_isolation(false)]
    pub fn add_implements(&mut self, ty: &String, iface: &String)
        ensures
            final (self)@.types == old(self)@.types,
            final (self)@.query_type == old(self)@.query_type,
            final (self)@.mutation_type == old(self)@.mutation_type,
            final (self)@.subscription_type == old(self)@.subscription_type,
            reg_implements(final (self)@, ty@).contains(iface@),
            forall|n: Seq<char>, i: Seq<char>|
                #[trigger] reg_implements(old(self)@, n).contains(i) ==> reg_implements(
                    final (self)@,
                    n,
                ).contains(i),
            forall|n: Seq<char>, i: Seq<char>|
                #[trigger] reg_implements(final (self)@, n).contains(i) ==> (n == ty@ && i
                    == iface@) || reg_implements(old(self)@, n).contains(i),
    {
        let ghost impv0 = self@.implements;
        let n = self.implements.len();
        let mut j: usize = 0;
        let mut found_row: bool = false;
        while j < n
            invariant
                0 <= j <= n,
                n == self.implements@.len(),
                impv0.len() == n,
                impv0 == self@.implements,
                !found_row,
                forall|k: int|
                    0 <= k < n ==> impv0[k] == (
                    self.implements@[k].0@,
                    string_seq_view(self.implements@[k].1@),
                    ),
                forall|k: int| 0 <= k < j ==> impv0[k].0 != ty@,
            decreases n - j,
        {
            if crate::context::str_eq_lit(&self.implements[j].0, ty.as_str()) {
                found_row = true;
                break ;
            }
            j += 1;
        }
        if found_row {
            proof {
                lemma_assoc_first(impv0, ty@, j as int);
            }
            let row_len = self.implements[j].1.len();
            let mut t: usize = 0;
            let ghost rowv = string_seq_view(self.implements@[j as int].1@);
            while t < row_len
                invariant
                    0 <= t <= row_len,
                    0 <= j < self.implements@.len(),
                    row_len == self.implements@[j as int].1@.len(),
                    rowv.len() == row_len,
                    forall|k: int|
                        0 <= k < row_len ==> rowv[k] == self.implements@[j as int].1@[k]@,
                    forall|k: int| 0 <= k < t ==> rowv[k] != iface@,
                decreases row_len - t,
            {
                if crate::context::str_eq_lit(&self.implements[j].1[t], iface.as_str()) {
                    proof {
                        assert(rowv[t as int] == iface@);
                        assert(reg_implements(self@, ty@).contains(iface@));
                    }
                    return ;
                }
                t += 1;
            }
            let jj = j;
            let iface_c = iface.clone();
            let rows = &mut self.implements;
            rows[jj].1.push(iface_c);
            proof {
                assert(self@.implements[jj as int].1 =~= rowv.push(iface@));
                assert(self@.implements =~~= impv0.update(
                    jj as int,
                    (ty@, rowv.push(iface@)),
                ));
                lemma_assoc_first(self@.implements, ty@, jj as int);
                assert(reg_implements(self@, ty@).contains(iface@)) by {
                    assert(self@.implements[jj as int].1[row_len as int] == iface@);
                };
                assert forall|nm: Seq<char>, i: Seq<char>|
                    #[trigger] reg_implements(old(self)@, nm).contains(i) implies reg_implements(
                    self@,
                    nm,
                ).contains(i) by {
                    if nm == ty@ {
                        assert(reg_implements(old(self)@, nm) == rowv);
                        assert(rowv.push(iface@).contains(i)) by {
                            let wit = choose|w: int| 0 <= w < rowv.len() && rowv[w] == i;
                            assert(rowv.push(iface@)[wit] == i);
                        };
                        assert(reg_implements(self@, nm) == rowv.push(iface@));
                    } else {
                        lemma_assoc_update_other(impv0, jj as int, rowv.push(iface@), nm);
                    }
                };
                assert forall|nm: Seq<char>, i: Seq<char>|
                    #[trigger] reg_implements(self@, nm).contains(i) implies ((nm == ty@ && i
                    == iface@) || reg_implements(old(self)@, nm).contains(i)) by {
                    if nm == ty@ {
                        assert(reg_implements(self@, nm) == rowv.push(iface@));
                        let wit = choose|w: int|
                            0 <= w < rowv.push(iface@).len() && rowv.push(iface@)[w] == i;
                        if wit < rowv.len() {
                            assert(rowv[wit] == i);
                            assert(reg_implements(old(self)@, nm) == rowv);
                        } else {
                            assert(i == iface@);
                        }
                    } else {
                        lemma_assoc_update_other(impv0, jj as int, rowv.push(iface@), nm);
                    }
                };
            }
        } else {
            proof {
                lemma_assoc_none(impv0, ty@);
            }
            let mut row: Vec<String> = Vec::new();
            row.push(iface.clone());
            self.implements.push((ty.clone(), row));
            proof {
                let rowv = seq![iface@];
                assert(self@.implements =~~= impv0.push((ty@, rowv)));
                lemma_assoc_push_present(impv0, ty@, rowv);
                assert(reg_implements(self@, ty@) == rowv);
                assert(rowv[0] == iface@);
                assert(reg_implements(self@, ty@).contains(iface@));
                assert forall|nm: Seq<char>, i: Seq<char>|
                    #[trigger] reg_implements(old(self)@, nm).contains(i) implies reg_implements(
                    self@,
                    nm,
                ).contains(i) by {
                    if nm == ty@ {
                        assert(reg_implements(old(self)@, nm) =~= Seq::<Seq<char>>::empty());
                    } else {
                        lemma_assoc_push_other(impv0, nm, ty@, rowv);
                    }
                };
                assert forall|nm: Seq<char>, i: Seq<char>|
                    #[trigger] reg_implements(self@, nm).contains(i) implies ((nm == ty@ && i
                    == iface@) || reg_implements(old(self)@, nm).contains(i)) by {
                    if nm == ty@ {
                        assert(reg_implements(self@, nm) == rowv);
                        let wit = choose|w: int| 0 <= w < rowv.len() && rowv[w] == i;
                        assert(i == iface@);
                    } else {
                        lemma_assoc_push_other(impv0, nm, ty@, rowv);
                    }
                };
            }
        }
    }

    /// Inserts a resolvable field into a registered object type's field
/// table, as a map insert: an existing binding of the name is replaced
/// in place, an absent one appended; a missing or non-object entry
/// leaves the registry unchanged.
#[verifier::rlimit(100)]
#[verifier::loop_isolation(false)]
pub fn object_add_field(&mut self, ty: &String, fname: &String, field: MetaField)
    ensures
        final (self)@.implements == old(self)@.implements,
        final (self)@.query_type == old(self)@.query_type,
        final (self)@.mutation_type == old(self)@.mutation_type,
        final (self)@.subscription_type == old(self)@.subscription_type,
        final (self)@.types.len() == old(self)@.types.len(),
        forall|k: int|
            0 <= k < old(self)@.types.len() ==> (#[trigger] final (self)@.types[k]).0 == old(
                self,
            )@.types[k].0,
        forall|nm: Seq<char>|
            nm != ty@ ==> #[trigger] reg_type(final (self)@, nm) == reg_type(old(self)@, nm),
        match reg_type(old(self)@, ty@) {
            Some(
                MetaTypeV::Object { name, description, fields, cache_control, extends, keys },
            ) => (reg_type(final (self)@, ty@) matches Some(MetaTypeV::Object {
                name: n2,
                description: d2,
                fields: f2,
                cache_control: c2,
                extends: e2,
                keys: k2,
            }) && n2 == name && d2 == description && c2 == cache_control && e2 == extends && k2
                == keys && assoc_get(f2, fname@) == Some(meta_field_view(field)) && (forall|
                k: Seq<char>,
            |
                k != fname@ ==> #[trigger] assoc_get(f2, k) == assoc_get(fields, k)) && f2.len()
                == (if assoc_get(fields, fname@) is Some {
                fields.len()
            } else {
                fields.len() + 1
            })),
            _ => reg_type(final (self)@, ty@) == reg_type(old(self)@, ty@),
        },
{
    let ghost tsv0 = self@.types;
    let ghost fv = meta_field_view(field);
    let n = self.types.len();
    let mut j: usize = 0;
    let mut found = false;
    while j < n
        invariant
            0 <= j <= n,
            !found,
            n == self.types@.len(),
            tsv0.len() == n,
            tsv0 == self@.types,
            forall|k: int|
                0 <= k < n ==> tsv0[k] == (self.types@[k].0@, meta_type_view(self.types@[k].1)),
            forall|k: int| 0 <= k < j ==> tsv0[k].0 != ty@,
        decreases n - j,
    {
        if crate::context::str_eq_lit(&self.types[j].0, ty.as_str()) {
            found = true;
            break ;
        }
        j += 1;
    }
    if !found {
        proof {
            lemma_assoc_none(tsv0, ty@);
        }
        return ;
    }
    proof {
        lemma_assoc_first(tsv0, ty@, j as int);
    }
    let jj = j;
    let mut fi: usize = 0;
    let mut ffound = false;
    let ghost f0 = match tsv0[jj as int].1 {
        MetaTypeV::Object { fields, .. } => fields,
        _ => Seq::empty(),
    };
    match &self.types[jj].1 {
        MetaType::Object { fields, .. } => {
            let m = fields.len();
            while fi < m
                invariant
                    0 <= fi <= m,
                    !ffound,
                    0 <= jj < self.types@.len(),
                    self.types@[jj as int].1 matches MetaType::Object { fields: fx, .. } && fx@
                        == fields@,
                    m == fields@.len(),
                    f0.len() == m,
                    forall|k: int|
                        0 <= k < m ==> f0[k] == (
                        fields@[k].0@,
                        meta_field_view(fields@[k].1),
                        ),
                    forall|k: int| 0 <= k < fi ==> f0[k].0 != fname@,
                decreases m - fi,
            {
                if crate::context::str_eq_lit(&fields[fi].0, fname.as_str()) {
                    ffound = true;
                    break ;
                }
                fi += 1;
            }
        },
        _ => {
            return ;
        },
    }
    let fname_c = fname.clone();
    let entries = &mut self.types;
    match &mut entries[jj].1 {
        MetaType::Object { fields, .. } => {
            if ffound {
                let ghost fvec0 = fields@;
                fields.remove(fi);
                fields.insert(fi, (fname_c, field));
                proof {
                    assert(fields@ =~= fvec0.update(fi as int, fields@[fi as int]));
                }
            } else {
                fields.push((fname_c, field));
            }
        },
        _ => {},
    }
    proof {
        let newtv = meta_type_view(self.types@[jj as int].1);
        if ffound {
            assert(match newtv {
                MetaTypeV::Object { fields: f1, .. } => f1 =~= f0.update(fi as int, (fname@, fv)),
                _ => false,
            });
        } else {
            lemma_assoc_none(f0, fname@);
            assert(match newtv {
                MetaTypeV::Object { fields: f1, .. } => f1 =~= f0.push((fname@, fv)),
                _ => false,
            });
        }
        assert(self@.types =~~= tsv0.update(jj as int, (ty@, newtv)));
        lemma_assoc_first(self@.types, ty@, jj as int);
        assert forall|nm: Seq<char>| nm != ty@ implies #[trigger] reg_type(
            RegistryV {
                types: self@.types,
                implements: self@.implements,
                query_type: self@.query_type,
                mutation_type: self@.mutation_type,
                subscription_type: self@.subscription_type,
            },
            nm,
        ) == assoc_get(tsv0, nm) by {
            lemma_assoc_update_other(tsv0, jj as int, newtv, nm);
        };
        let f1 = match newtv {
            MetaTypeV::Object { fields: fx, .. } => fx,
            _ => Seq::empty(),
        };
        if ffound {
            assert(f0[fi as int].0 == fname@);
            lemma_assoc_first(f1, fname@, fi as int);
            assert forall|k: Seq<char>| k != fname@ implies #[trigger] assoc_get(f1, k)
                == assoc_get(f0, k) by {
                lemma_assoc_update_other(f0, fi as int, fv, k);
                assert(f0.update(fi as int, (f0[fi as int].0, fv)) =~= f1);
            };
            lemma_assoc_first(f0, fname@, fi as int);
            assert(assoc_get(f0, fname@) == Some(f0[fi as int].1));
        } else {
            lemma_assoc_push_present(f0, fname@, fv);
            assert forall|k: Seq<char>| k != fname@ implies #[trigger] assoc_get(f1, k)
                == assoc_get(f0, k) by {
                lemma_assoc_push_other(f0, k, fname@, fv);
                assert(f0.push((fname@, fv)) =~= f1);
            };
        }
    }
}

/// Whether the registry records that `ty` implements `iface`./// Whether the registry records that `ty` implements `iface`.
    #[verifier::loop_isolation(false)]
    pub fn implements_interface(&self, ty: &String, iface: &String) -> (r: bool)
        ensures
            r == reg_implements(self@, ty@).contains(iface@),
    {
        let ghost impv = self@.implements;
        let n = self.implements.len();
        for j in 0..n
            invariant
                n == self.implements@.len(),
                impv.len() == n,
                forall|k: int|
                    0 <= k < n ==> impv[k] == (
                    self.implements@[k].0@,
                    string_seq_view(self.implements@[k].1@),
                    ),
                forall|k: int| 0 <= k < j ==> impv[k].0 != ty@,
            decreases n - j,
        {
            if crate::context::str_eq_lit(&self.implements[j].0, ty.as_str()) {
                proof {
                    lemma_assoc_first(impv, ty@, j as int);
                }
                let ghost rowv = string_seq_view(self.implements@[j as int].1@);
                let row_len = self.implements[j].1.len();
                let mut t: usize = 0;
                while t < row_len
                    invariant
                        0 <= t <= row_len,
                        0 <= j < self.implements@.len(),
                        row_len == self.implements@[j as int].1@.len(),
                        rowv.len() == row_len,
                        forall|k: int|
                            0 <= k < row_len ==> rowv[k] == self.implements@[j as int].1@[k]@,
                        forall|k: int| 0 <= k < t ==> rowv[k] != iface@,
                    decreases row_len - t,
                {
                    if crate::context::str_eq_lit(&self.implements[j].1[t], iface.as_str()) {
                        proof {
                            assert(rowv[t as int] == iface@);
                        }
                        return true;
                    }
                    t += 1;
                }
                proof {
                    assert(forall|w: int| 0 <= w < rowv.len() ==> rowv[w] != iface@);
                }
                return false;
            }
        }
        proof {
            lemma_assoc_none(impv, ty@);
            assert(reg_implements(self@, ty@) =~= Seq::<Seq<char>>::empty());
        }
        false
    }
}

/// Appending a new binding does not change lookups of other names.
pub proof fn lemma_assoc_push_other<T>(
    ps: Seq<(Seq<char>, T)>,
    name: Seq<char>,
    key: Seq<char>,
    v: T,
)
    requires
        name != key,
    ensures
        assoc_get(ps.push((key, v)), name) == assoc_get(ps, name),
    decreases ps.len(),
{
    if ps.len() == 0 {
        assert(ps.push((key, v))[0] == (key, v));
        assert(ps.push((key, v)).skip(1) =~= Seq::<(Seq<char>, T)>::empty());
        assert(assoc_get(Seq::<(Seq<char>, T)>::empty(), name) is None);
    } else {
        lemma_assoc_push_other(ps.skip(1), name, key, v);
        assert(ps.push((key, v)).skip(1) =~= ps.skip(1).push((key, v)));
    }
}

/// Appending a binding of a name with no earlier binding makes lookup
/// find it.
pub proof fn lemma_assoc_push_present<T>(ps: Seq<(Seq<char>, T)>, key: Seq<char>, v: T)
    requires
        assoc_get(ps, key) is None,
    ensures
        assoc_get(ps.push((key, v)), key) == Some(v),
    decreases ps.len(),
{
    if ps.len() == 0 {
        assert(ps.push((key, v))[0] == (key, v));
        assert(ps.push((key, v)).skip(1) =~= Seq::<(Seq<char>, T)>::empty());
    } else {
        lemma_assoc_push_present(ps.skip(1), key, v);
        assert(ps.push((key, v)).skip(1) =~= ps.skip(1).push((key, v)));
    }
}

/// Updating one row does not change lookups of other names.
proof fn lemma_assoc_update_other<T>(ps: Seq<(Seq<char>, T)>, j: int, v: T, name: Seq<char>)
    requires
        0 <= j < ps.len(),
        name != ps[j].0,
    ensures
        assoc_get(ps.update(j, (ps[j].0, v)), name) == assoc_get(ps, name),
    decreases j,
{
    let qs = ps.update(j, (ps[j].0, v));
    if j == 0 {
        assert(qs.skip(1) =~= ps.skip(1));
    } else {
        lemma_assoc_update_other(ps.skip(1), j - 1, v, name);
        assert(qs.skip(1) =~= ps.skip(1).update(j - 1, (ps[j].0, v)));
        assert(ps.skip(1)[j - 1].0 == ps[j].0);
    }
}

/// The SDL rendering of one declared argument.
pub open spec fn sdl_arg(v: MetaInputValueV) -> Seq<char> {
    v.name + ": "@ + v.ty
}

/// The SDL rendering of an argument list's inside, comma separated.
pub open spec fn sdl_args_inner(args: Seq<(Seq<char>, MetaInputValueV)>) -> Seq<char>
    decreases args.len(),
{
    if args.len() == 0 {
        Seq::empty()
    } else if args.len() == 1 {
        sdl_arg(args[0].1)
    } else {
        sdl_arg(args[0].1) + ", "@ + sdl_args_inner(args.skip(1))
    }
}

/// The SDL rendering of an argument list, parenthesized when non-empty.
pub open spec fn sdl_args(args: Seq<(Seq<char>, MetaInputValueV)>) -> Seq<char> {
    if args.len() == 0 {
        Seq::empty()
    } else {
        "("@ + sdl_args_inner(args) + ")"@
    }
}

/// The SDL rendering of one field, federation attributes included.
pub open spec fn sdl_field(f: MetaFieldV) -> Seq<char> {
    "\t"@ + f.name + sdl_args(f.args) + ": "@ + f.ty + (if f.external {
        " @external"@
    } else {
        Seq::empty()
    }) + (match f.requires {
        Some(rq) => " @requires(fields: \""@ + rq + "\")"@,
        None => Seq::empty(),
    }) + (match f.provides {
        Some(pv) => " @provides(fields: \""@ + pv + "\")"@,
        None => Seq::empty(),
    }) + "\n"@
}

/// The SDL rendering of a field table.
pub open spec fn sdl_fields(fs: Seq<(Seq<char>, MetaFieldV)>) -> Seq<char>
    decreases fs.len(),
{
    if fs.len() == 0 {
        Seq::empty()
    } else {
        sdl_field(fs[0].1) + sdl_fields(fs.skip(1))
    }
}

/// The SDL rendering of the `@key` directives of an entity.
pub open spec fn sdl_keys(keys: Option<Seq<Seq<char>>>) -> Seq<char> {
    match keys {
        Some(ks) => sdl_keys_list(ks),
        None => Seq::empty(),
    }
}

pub open spec fn sdl_keys_list(ks: Seq<Seq<char>>) -> Seq<char>
    decreases ks.len(),
{
    if ks.len() == 0 {
        Seq::empty()
    } else {
        " @key(fields: \""@ + ks[0] + "\")"@ + sdl_keys_list(ks.skip(1))
    }
}

/// The SDL rendering of a name list joined by `|`, as a union's members.
pub open spec fn sdl_union_members(ns: Seq<Seq<char>>) -> Seq<char>
    decreases ns.len(),
{
    if ns.len() == 0 {
        Seq::empty()
    } else if ns.len() == 1 {
        ns[0]
    } else {
        ns[0] + " | "@ + sdl_union_members(ns.skip(1))
    }
}

/// The SDL rendering of enum values, one per line.
pub open spec fn sdl_enum_values(ns: Seq<Seq<char>>) -> Seq<char>
    decreases ns.len(),
{
    if ns.len() == 0 {
        Seq::empty()
    } else {
        "\t"@ + ns[0] + "\n"@ + sdl_enum_values(ns.skip(1))
    }
}

/// The SDL rendering of input fields, one per line.
pub open spec fn sdl_input_fields(vs: Seq<MetaInputValueV>) -> Seq<char>
    decreases vs.len(),
{
    if vs.len() == 0 {
        Seq::empty()
    } else {
        "\t"@ + sdl_arg(vs[0]) + "\n"@ + sdl_input_fields(vs.skip(1))
    }
}

/// The SDL rendering of one registered type.
pub open spec fn sdl_type(t: MetaTypeV) -> Seq<char> {
    match t {
        MetaTypeV::Scalar { name, .. } => "scalar "@ + name + "\n"@,
        MetaTypeV::Object { name, fields, extends, keys, .. } => (if extends {
            "extend type "@
        } else {
            "type "@
        }) + name + sdl_keys(keys) + (if fields.len() == 0 {
            "\n"@
        } else {
            " {\n"@ + sdl_fields(fields) + "}\n"@
        }),
        MetaTypeV::Interface { name, fields, extends, keys, .. } => (if extends {
            "extend interface "@
        } else {
            "interface "@
        }) + name + sdl_keys(keys) + (if fields.len() == 0 {
            "\n"@
        } else {
            " {\n"@ + sdl_fields(fields) + "}\n"@
        }),
        MetaTypeV::Union { name, possible_types, .. } => "union "@ + name + " = "@
            + sdl_union_members(possible_types) + "\n"@,
        MetaTypeV::Enum { name, enum_values, .. } => "enum "@ + name + " {\n"@ + sdl_enum_values(
            enum_values,
        ) + "}\n"@,
        MetaTypeV::InputObject { name, input_fields, .. } => "input "@ + name + " {\n"@
            + sdl_input_fields(input_fields) + "}\n"@,
    }
}

/// Whether a type name is internal to introspection and left out of the
/// emitted SDL.
pub open spec fn internal_name(n: Seq<char>) -> bool {
    n.len() >= 2 && n[0] == '_' && n[1] == '_'
}

/// The SDL rendering of a type table, internal entries omitted.
pub open spec fn sdl_types(ts: Seq<(Seq<char>, MetaTypeV)>) -> Seq<char>
    decreases ts.len(),
{
    if ts.len() == 0 {
        Seq::empty()
    } else {
        (if internal_name(ts[0].0) {
            Seq::empty()
        } else {
            sdl_type(ts[0].1)
        }) + sdl_types(ts.skip(1))
    }
}

/// The federation SDL of a whole registry.
pub open spec fn sdl_spec(r: RegistryV) -> Seq<char> {
    sdl_types(r.types)
}

/// Renders one declared argument.
fn render_arg(v: &MetaInputValue, out: &mut String)
    ensures
        final (out)@ == old(out)@ + sdl_arg(meta_input_value_view(*v)),
{
    out.append(v.name.as_str());
    out.append(": ");
    out.append(v.ty.as_str());
    proof {
        assert(out@ =~= old(out)@ + sdl_arg(meta_input_value_view(*v)));
    }
}

/// Renders one field line.
/// Renders a parenthesized argument list, nothing when empty.
#[verifier::rlimit(100)]
#[verifier::spinoff_prover]
#[verifier::loop_isolation(false)]
fn render_args(args: &Vec<(String, MetaInputValue)>, out: &mut String)
    ensures
        final (out)@ == old(out)@ + sdl_args(
            args@.map_values(|p: (String, MetaInputValue)| (p.0@, meta_input_value_view(p.1))),
        ),
{
    let ghost argsv = args@.map_values(
        |p: (String, MetaInputValue)| (p.0@, meta_input_value_view(p.1)),
    );
    if args.len() == 0 {
        proof {
            assert(out@ =~= old(out)@ + sdl_args(argsv));
        }
        return ;
    }
    out.append("(");
    let n = args.len();
    for i in 0..n
        invariant
            n == args@.len(),
            n > 0,
            argsv.len() == n,
            forall|k: int|
                0 <= k < n ==> argsv[k] == (args@[k].0@, meta_input_value_view(args@[k].1)),
            out@ == old(out)@ + "("@ + (if i == 0 {
                Seq::<char>::empty()
            } else if i < n {
                sdl_args_inner(argsv.take(i as int)) + ", "@
            } else {
                sdl_args_inner(argsv.take(i as int))
            }),
        decreases n - i,
    {
        render_arg(&args[i].1, out);
        if i + 1 < n {
            out.append(", ");
        }
        proof {
            lemma_sdl_args_inner_snoc(argsv, i as int);
            if i + 1 < n {
                assert(out@ =~= old(out)@ + "("@ + (sdl_args_inner(argsv.take(i + 1 as int))
                    + ", "@));
            } else {
                assert(out@ =~= old(out)@ + "("@ + sdl_args_inner(argsv.take(i + 1 as int)));
            }
        }
    }
    out.append(")");
    proof {
        assert(argsv.take(n as int) =~= argsv);
        assert(out@ =~= old(out)@ + sdl_args(argsv));
    }
}

/// Renders one field line.
#[verifier::rlimit(100)]
#[verifier::spinoff_prover]
fn render_field(f: &MetaField, out: &mut String)
    ensures
        final (out)@ == old(out)@ + sdl_field(meta_field_view(*f)),
{
    let ghost fv = meta_field_view(*f);
    out.append("\t");
    out.append(f.name.as_str());
    render_args(&f.args, out);
    let ghost mid = out@;
    proof {
        assert(mid =~= old(out)@ + "\t"@ + fv.name + sdl_args(fv.args));
    }
    out.append(": ");
    out.append(f.ty.as_str());
    if f.external {
        out.append(" @external");
    }
    match &f.requires {
        Some(rq) => {
            out.append(" @requires(fields: \"");
            out.append(rq.as_str());
            out.append("\")");
        },
        None => {},
    }
    match &f.provides {
        Some(pv) => {
            out.append(" @provides(fields: \"");
            out.append(pv.as_str());
            out.append("\")");
        },
        None => {},
    }
    out.append("\n");
    proof {
        assert(out@ =~= mid + ": "@ + fv.ty + (if fv.external {
            " @external"@
        } else {
            Seq::<char>::empty()
        }) + (match fv.requires {
            Some(rq) => " @requires(fields: \""@ + rq + "\")"@,
            None => Seq::<char>::empty(),
        }) + (match fv.provides {
            Some(pv) => " @provides(fields: \""@ + pv + "\")"@,
            None => Seq::<char>::empty(),
        }) + "\n"@);
        assert(out@ =~= old(out)@ + sdl_field(fv));
    }
}

/// Splitting a comma-joined argument list at its last element.
proof fn lemma_sdl_args_inner_snoc(args: Seq<(Seq<char>, MetaInputValueV)>, i: int)
    requires
        0 <= i < args.len(),
    ensures
        sdl_args_inner(args.take(i + 1)) == (if i == 0 {
            sdl_arg(args[0].1)
        } else {
            sdl_args_inner(args.take(i)) + ", "@ + sdl_arg(args[i].1)
        }),
    decreases i,
{
    let pre1 = args.take(i + 1);
    if i == 0 {
        assert(pre1 =~= seq![args[0]]);
        assert(pre1[0] == args[0]);
    } else {
        lemma_sdl_args_inner_snoc(args.skip(1), i - 1);
        assert(pre1[0] == args[0]);
        assert(pre1.len() == i + 1 >= 2);
        assert(pre1.skip(1) =~= args.skip(1).take(i));
        assert(args.take(i)[0] == args[0]);
        assert(args.take(i).skip(1) =~= args.skip(1).take(i - 1));
        assert(args.skip(1)[i - 1] == args[i]);
        if i == 1 {
            assert(args.take(1) =~= seq![args[0]]);
            assert(sdl_args_inner(args.take(1)) == sdl_arg(args[0].1));
            assert(sdl_args_inner(pre1) =~= sdl_args_inner(args.take(i)) + ", "@ + sdl_arg(
                args[i].1,
            ));
        } else {
            assert(args.take(i).len() == i >= 2);
            assert(sdl_args_inner(args.take(i)) == sdl_arg(args[0].1) + ", "@ + sdl_args_inner(
                args.skip(1).take(i - 1),
            ));
            assert(sdl_args_inner(pre1) =~= sdl_args_inner(args.take(i)) + ", "@ + sdl_arg(
                args[i].1,
            ));
        }
    }
}

/// Renders a field table.
#[verifier::loop_isolation(false)]
fn render_fields(fs: &Vec<(String, MetaField)>, out: &mut String)
    ensures
        final (out)@ == old(out)@ + sdl_fields(fields_view(fs@)),
{
    let ghost fsv = fields_view(fs@);
    let n = fs.len();
    for i in 0..n
        invariant
            n == fs@.len(),
            fsv.len() == n,
            forall|k: int| 0 <= k < n ==> fsv[k] == (fs@[k].0@, meta_field_view(fs@[k].1)),
            out@ == old(out)@ + sdl_fields_take(fsv, i as int),
        decreases n - i,
    {
        render_field(&fs[i].1, out);
        proof {
            lemma_sdl_fields_snoc(fsv, i as int);
            assert(out@ =~= old(out)@ + sdl_fields_take(fsv, i + 1 as int));
        }
    }
    proof {
        assert(fsv.take(n as int) =~= fsv);
        assert(sdl_fields_take(fsv, n as int) == sdl_fields(fsv));
    }
}

/// The rendering of the first `i` fields.
pub open spec fn sdl_fields_take(fs: Seq<(Seq<char>, MetaFieldV)>, i: int) -> Seq<char> {
    sdl_fields(fs.take(i))
}

/// Splitting a rendered field table at its last line.
proof fn lemma_sdl_fields_snoc(fs: Seq<(Seq<char>, MetaFieldV)>, i: int)
    requires
        0 <= i < fs.len(),
    ensures
        sdl_fields(fs.take(i + 1)) == sdl_fields(fs.take(i)) + sdl_field(fs[i].1),
    decreases i,
{
    let pre1 = fs.take(i + 1);
    if i == 0 {
        assert(fs.take(0) =~= Seq::<(Seq<char>, MetaFieldV)>::empty());
        assert(pre1 =~= seq![fs[0]]);
        assert(pre1[0] == fs[0]);
        assert(pre1.skip(1) =~= Seq::<(Seq<char>, MetaFieldV)>::empty());
        assert(sdl_fields(fs.take(0)) + sdl_field(fs[0].1) =~= sdl_field(fs[0].1) + Seq::<
            char,
        >::empty());
        assert(sdl_field(fs[0].1) + Seq::<char>::empty() =~= sdl_field(fs[0].1));
    } else {
        lemma_sdl_fields_snoc(fs.skip(1), i - 1);
        assert(pre1[0] == fs[0]);
        assert(pre1.skip(1) =~= fs.skip(1).take(i));
        assert(fs.take(i)[0] == fs[0]);
        assert(fs.take(i).skip(1) =~= fs.skip(1).take(i - 1));
        assert(fs.skip(1)[i - 1] == fs[i]);
        assert(sdl_fields(pre1) =~= sdl_fields(fs.take(i)) + sdl_field(fs[i].1));
    }
}

impl Registry {
    /// Emits the federation SDL of every non-internal registered type, in
    /// registration order, exactly as [`sdl_spec`] states.
    #[verifier::loop_isolation(false)]
    pub fn create_federation_sdl(&self) -> (r: String)
        ensures
            r@ == sdl_spec(self@),
    {
        let ghost tsv = self@.types;
        let mut out = String::new();
        let n = self.types.len();
        for i in 0..n
            invariant
                n == self.types@.len(),
                tsv.len() == n,
                forall|k: int|
                    0 <= k < n ==> tsv[k] == (
                    self.types@[k].0@,
                    meta_type_view(self.types@[k].1),
                    ),
                out@ == sdl_types(tsv.take(i as int)),
            decreases n - i,
        {
            let name = &self.types[i].0;
            let internal = is_internal_name(name);
            if !internal {
                render_type(&self.types[i].1, &mut out);
            }
            proof {
                lemma_sdl_types_snoc(tsv, i as int);
                assert(out@ =~= sdl_types(tsv.take(i + 1 as int)));
            }
        }
        proof {
            assert(tsv.take(n as int) =~= tsv);
        }
        out
    }
}

/// Whether a type name starts with two underscores.
#[verifier::loop_isolation(false)]
fn is_internal_name(n: &String) -> (r: bool)
    ensures
        r == internal_name(n@),
{
    let cs = crate::context::string_chars(n);
    if cs.len() >= 2 {
        cs[0] == '_' && cs[1] == '_'
    } else {
        false
    }
}

/// Splitting a rendered type table at its last entry.
proof fn lemma_sdl_types_snoc(ts: Seq<(Seq<char>, MetaTypeV)>, i: int)
    requires
        0 <= i < ts.len(),
    ensures
        sdl_types(ts.take(i + 1)) == sdl_types(ts.take(i)) + (if internal_name(ts[i].0) {
            Seq::<char>::empty()
        } else {
            sdl_type(ts[i].1)
        }),
    decreases i,
{
    let pre1 = ts.take(i + 1);
    let piece = if internal_name(ts[i].0) {
        Seq::<char>::empty()
    } else {
        sdl_type(ts[i].1)
    };
    if i == 0 {
        assert(ts.take(0) =~= Seq::<(Seq<char>, MetaTypeV)>::empty());
        assert(pre1 =~= seq![ts[0]]);
        assert(pre1[0] == ts[0]);
        assert(pre1.skip(1) =~= Seq::<(Seq<char>, MetaTypeV)>::empty());
        assert(sdl_types(pre1) =~= sdl_types(ts.take(0)) + piece);
    } else {
        lemma_sdl_types_snoc(ts.skip(1), i - 1);
        assert(pre1[0] == ts[0]);
        assert(pre1.skip(1) =~= ts.skip(1).take(i));
        assert(ts.take(i)[0] == ts[0]);
        assert(ts.take(i).skip(1) =~= ts.skip(1).take(i - 1));
        assert(ts.skip(1)[i - 1] == ts[i]);
        assert(sdl_types(pre1) =~= sdl_types(ts.take(i)) + piece);
    }
}

/// Renders union members joined by `|`.
#[verifier::rlimit(100)]
#[verifier::loop_isolation(false)]
fn render_union_members(ns: &Vec<String>, out: &mut String)
    ensures
        final (out)@ == old(out)@ + sdl_union_members(string_seq_view(ns@)),
{
    let ghost psv = string_seq_view(ns@);
    let n = ns.len();
    for i in 0..n
        invariant
            n == ns@.len(),
            psv.len() == n,
            forall|k: int| 0 <= k < n ==> psv[k] == ns@[k]@,
            out@ == old(out)@ + (if i == 0 {
                Seq::<char>::empty()
            } else if i < n {
                sdl_union_members(psv.take(i as int)) + " | "@
            } else {
                sdl_union_members(psv.take(i as int))
            }),
        decreases n - i,
    {
        out.append(ns[i].as_str());
        if i + 1 < n {
            out.append(" | ");
        }
        proof {
            lemma_sdl_union_snoc(psv, i as int);
            if i + 1 < n {
                assert(out@ =~= old(out)@ + (sdl_union_members(psv.take(i + 1 as int)) + " | "@));
            } else {
                assert(out@ =~= old(out)@ + sdl_union_members(psv.take(i + 1 as int)));
            }
        }
    }
    proof {
        assert(psv.take(n as int) =~= psv);
        if n == 0 {
            assert(out@ =~= old(out)@ + sdl_union_members(psv));
        }
    }
}

/// Renders enum values, one per line.
#[verifier::rlimit(100)]
#[verifier::loop_isolation(false)]
fn render_enum_values(ns: &Vec<String>, out: &mut String)
    ensures
        final (out)@ == old(out)@ + sdl_enum_values(string_seq_view(ns@)),
{
    let ghost esv = string_seq_view(ns@);
    let n = ns.len();
    for i in 0..n
        invariant
            n == ns@.len(),
            esv.len() == n,
            forall|k: int| 0 <= k < n ==> esv[k] == ns@[k]@,
            out@ == old(out)@ + sdl_enum_values_take(esv, i as int),
        decreases n - i,
    {
        out.append("\t");
        out.append(ns[i].as_str());
        out.append("\n");
        proof {
            lemma_sdl_enum_snoc(esv, i as int);
            assert(out@ =~= old(out)@ + sdl_enum_values_take(esv, i + 1 as int));
        }
    }
    proof {
        assert(esv.take(n as int) =~= esv);
    }
}

/// Renders input fields, one per line.
#[verifier::rlimit(100)]
#[verifier::loop_isolation(false)]
fn render_input_fields(vs: &Vec<MetaInputValue>, out: &mut String)
    ensures
        final (out)@ == old(out)@ + sdl_input_fields(
            vs@.map_values(|v: MetaInputValue| meta_input_value_view(v)),
        ),
{
    let ghost isv = vs@.map_values(|v: MetaInputValue| meta_input_value_view(v));
    let n = vs.len();
    for i in 0..n
        invariant
            n == vs@.len(),
            isv.len() == n,
            forall|k: int| 0 <= k < n ==> isv[k] == meta_input_value_view(vs@[k]),
            out@ == old(out)@ + sdl_input_fields_take(isv, i as int),
        decreases n - i,
    {
        out.append("\t");
        render_arg(&vs[i], out);
        out.append("\n");
        proof {
            lemma_sdl_input_snoc(isv, i as int);
            assert(out@ =~= old(out)@ + sdl_input_fields_take(isv, i + 1 as int));
        }
    }
    proof {
        assert(isv.take(n as int) =~= isv);
    }
}

/// Renders a field block: nothing but a newline when empty, else the
/// braced field lines.
fn render_braced_fields(fields: &Vec<(String, MetaField)>, out: &mut String)
    ensures
        final (out)@ == old(out)@ + (if fields_view(fields@).len() == 0 {
            "\n"@
        } else {
            " {\n"@ + sdl_fields(fields_view(fields@)) + "}\n"@
        }),
{
    if fields.len() == 0 {
        out.append("\n");
        proof {
            assert(out@ =~= old(out)@ + "\n"@);
        }
    } else {
        out.append(" {\n");
        render_fields(fields, out);
        out.append("}\n");
        proof {
            assert(out@ =~= old(out)@ + (" {\n"@ + sdl_fields(fields_view(fields@)) + "}\n"@));
        }
    }
}

/// Renders one type declaration.
#[verifier::rlimit(100)]
#[verifier::spinoff_prover]
#[verifier::loop_isolation(false)]
fn render_type(t: &MetaType, out: &mut String)
    ensures
        final (out)@ == old(out)@ + sdl_type(meta_type_view(*t)),
{
    let ghost tv = meta_type_view(*t);
    match t {
        MetaType::Scalar { name, .. } => {
            out.append("scalar ");
            out.append(name.as_str());
            out.append("\n");
            proof {
                assert(out@ =~= old(out)@ + sdl_type(tv));
            }
        },
        MetaType::Object { name, fields, extends, keys, .. } => {
            if *extends {
                out.append("extend type ");
            } else {
                out.append("type ");
            }
            out.append(name.as_str());
            render_keys(keys, out);
            render_braced_fields(fields, out);
            proof {
                assert(out@ =~= old(out)@ + sdl_type(tv));
            }
        },
        MetaType::Interface { name, fields, extends, keys, .. } => {
            if *extends {
                out.append("extend interface ");
            } else {
                out.append("interface ");
            }
            out.append(name.as_str());
            render_keys(keys, out);
            render_braced_fields(fields, out);
            proof {
                assert(out@ =~= old(out)@ + sdl_type(tv));
            }
        },
        MetaType::Union { name, possible_types, .. } => {
            out.append("union ");
            out.append(name.as_str());
            out.append(" = ");
            render_union_members(possible_types, out);
            out.append("\n");
            proof {
                assert(out@ =~= old(out)@ + sdl_type(tv));
            }
        },
        MetaType::Enum { name, enum_values, .. } => {
            out.append("enum ");
            out.append(name.as_str());
            out.append(" {\n");
            render_enum_values(enum_values, out);
            out.append("}\n");
            proof {
                assert(out@ =~= old(out)@ + sdl_type(tv));
            }
        },
        MetaType::InputObject { name, input_fields, .. } => {
            out.append("input ");
            out.append(name.as_str());
            out.append(" {\n");
            render_input_fields(input_fields, out);
            out.append("}\n");
            proof {
                assert(out@ =~= old(out)@ + sdl_type(tv));
            }
        },
    }
}

/// Renders the `@key` directives of an entity.
#[verifier::loop_isolation(false)]
fn render_keys(keys: &Option<Vec<String>>, out: &mut String)
    ensures
        final (out)@ == old(out)@ + sdl_keys(opt_strings_view(*keys)),
{
    match keys {
        None => {
            proof {
                assert(out@ =~= old(out)@ + sdl_keys(opt_strings_view(*keys)));
            }
        },
        Some(ks) => {
            let ghost ksv = string_seq_view(ks@);
            let n = ks.len();
            for i in 0..n
                invariant
                    n == ks@.len(),
                    ksv.len() == n,
                    forall|k: int| 0 <= k < n ==> ksv[k] == ks@[k]@,
                    out@ == old(out)@ + sdl_keys_take(ksv, i as int),
                decreases n - i,
            {
                out.append(" @key(fields: \"");
                out.append(ks[i].as_str());
                out.append("\")");
                proof {
                    lemma_sdl_keys_snoc(ksv, i as int);
                    assert(out@ =~= old(out)@ + sdl_keys_take(ksv, i + 1 as int));
                }
            }
            proof {
                assert(ksv.take(n as int) =~= ksv);
            }
        },
    }
}

pub open spec fn sdl_enum_values_take(ns: Seq<Seq<char>>, i: int) -> Seq<char> {
    sdl_enum_values(ns.take(i))
}

pub open spec fn sdl_input_fields_take(vs: Seq<MetaInputValueV>, i: int) -> Seq<char> {
    sdl_input_fields(vs.take(i))
}

/// Splitting rendered union members at the last one.
proof fn lemma_sdl_union_snoc(ns: Seq<Seq<char>>, i: int)
    requires
        0 <= i < ns.len(),
    ensures
        sdl_union_members(ns.take(i + 1)) == (if i == 0 {
            ns[0]
        } else {
            sdl_union_members(ns.take(i)) + " | "@ + ns[i]
        }),
    decreases i,
{
    let pre1 = ns.take(i + 1);
    if i == 0 {
        assert(pre1 =~= seq![ns[0]]);
        assert(pre1[0] == ns[0]);
    } else {
        lemma_sdl_union_snoc(ns.skip(1), i - 1);
        assert(pre1[0] == ns[0]);
        assert(pre1.len() == i + 1 >= 2);
        assert(pre1.skip(1) =~= ns.skip(1).take(i));
        assert(ns.take(i)[0] == ns[0]);
        assert(ns.take(i).skip(1) =~= ns.skip(1).take(i - 1));
        assert(ns.skip(1)[i - 1] == ns[i]);
        if i == 1 {
            assert(ns.take(1) =~= seq![ns[0]]);
            assert(sdl_union_members(ns.take(1)) == ns[0]);
            assert(sdl_union_members(pre1) =~= sdl_union_members(ns.take(i)) + " | "@ + ns[i]);
        } else {
            assert(ns.take(i).len() == i >= 2);
            assert(sdl_union_members(pre1) =~= sdl_union_members(ns.take(i)) + " | "@ + ns[i]);
        }
    }
}

/// Splitting rendered enum values at the last one.
proof fn lemma_sdl_enum_snoc(ns: Seq<Seq<char>>, i: int)
    requires
        0 <= i < ns.len(),
    ensures
        sdl_enum_values(ns.take(i + 1)) == sdl_enum_values(ns.take(i)) + ("\t"@ + ns[i] + "\n"@),
    decreases i,
{
    let pre1 = ns.take(i + 1);
    let piece = "\t"@ + ns[i] + "\n"@;
    if i == 0 {
        assert(ns.take(0) =~= Seq::<Seq<char>>::empty());
        assert(pre1 =~= seq![ns[0]]);
        assert(pre1[0] == ns[0]);
        assert(pre1.skip(1) =~= Seq::<Seq<char>>::empty());
        assert(sdl_enum_values(pre1) =~= sdl_enum_values(ns.take(0)) + piece);
    } else {
        lemma_sdl_enum_snoc(ns.skip(1), i - 1);
        assert(pre1[0] == ns[0]);
        assert(pre1.skip(1) =~= ns.skip(1).take(i));
        assert(ns.take(i)[0] == ns[0]);
        assert(ns.take(i).skip(1) =~= ns.skip(1).take(i - 1));
        assert(ns.skip(1)[i - 1] == ns[i]);
        assert(sdl_enum_values(pre1) =~= sdl_enum_values(ns.take(i)) + piece);
    }
}

/// Splitting rendered input fields at the last one.
proof fn lemma_sdl_input_snoc(vs: Seq<MetaInputValueV>, i: int)
    requires
        0 <= i < vs.len(),
    ensures
        sdl_input_fields(vs.take(i + 1)) == sdl_input_fields(vs.take(i)) + ("\t"@ + sdl_arg(vs[i])
            + "\n"@),
    decreases i,
{
    let pre1 = vs.take(i + 1);
    let piece = "\t"@ + sdl_arg(vs[i]) + "\n"@;
    if i == 0 {
        assert(vs.take(0) =~= Seq::<MetaInputValueV>::empty());
        assert(pre1 =~= seq![vs[0]]);
        assert(pre1[0] == vs[0]);
        assert(pre1.skip(1) =~= Seq::<MetaInputValueV>::empty());
        assert(sdl_input_fields(pre1) =~= sdl_input_fields(vs.take(0)) + piece);
    } else {
        lemma_sdl_input_snoc(vs.skip(1), i - 1);
        assert(pre1[0] == vs[0]);
        assert(pre1.skip(1) =~= vs.skip(1).take(i));
        assert(vs.take(i)[0] == vs[0]);
        assert(vs.take(i).skip(1) =~= vs.skip(1).take(i - 1));
        assert(vs.skip(1)[i - 1] == vs[i]);
        assert(sdl_input_fields(pre1) =~= sdl_input_fields(vs.take(i)) + piece);
    }
}

pub open spec fn sdl_keys_take(ks: Seq<Seq<char>>, i: int) -> Seq<char> {
    sdl_keys_list(ks.take(i))
}

/// Splitting rendered keys at the last one.
proof fn lemma_sdl_keys_snoc(ks: Seq<Seq<char>>, i: int)
    requires
        0 <= i < ks.len(),
    ensures
        sdl_keys_list(ks.take(i + 1)) == sdl_keys_list(ks.take(i)) + (" @key(fields: \""@ + ks[i]
            + "\")"@),
    decreases i,
{
    let pre1 = ks.take(i + 1);
    let piece = " @key(fields: \""@ + ks[i] + "\")"@;
    if i == 0 {
        assert(ks.take(0) =~= Seq::<Seq<char>>::empty());
        assert(pre1 =~= seq![ks[0]]);
        assert(pre1[0] == ks[0]);
        assert(pre1.skip(1) =~= Seq::<Seq<char>>::empty());
        assert(sdl_keys_list(pre1) =~= sdl_keys_list(ks.take(0)) + piece);
    } else {
        lemma_sdl_keys_snoc(ks.skip(1), i - 1);
        assert(pre1[0] == ks[0]);
        assert(pre1.skip(1) =~= ks.skip(1).take(i));
        assert(ks.take(i)[0] == ks[0]);
        assert(ks.take(i).skip(1) =~= ks.skip(1).take(i - 1));
        assert(ks.skip(1)[i - 1] == ks[i]);
        assert(sdl_keys_list(pre1) =~= sdl_keys_list(ks.take(i)) + piece);
    }
}




} // verus!
