//! The registry of type descriptors: the single owner of every descriptor of
//! one schema, keyed by the type's name and kept in the order of registration.
//! Descriptors name each other by string only, so cyclic type graphs need no
//! care beyond registering each name once.

use vstd::prelude::*;

verus! {

/// Cache-control metadata of a field; carried along, never interpreted.
#[derive(Clone, Copy, Debug, PartialEq, Eq, Structural)]
pub struct CacheControl {
    pub public: bool,
    pub max_age: usize,
}

impl Default for CacheControl {
    /// Public, with no maximal age.
    fn default() -> (c: CacheControl)
        ensures
            c == (CacheControl { public: true, max_age: 0 }),
    {
        CacheControl { public: true, max_age: 0 }
    }
}

/// The descriptor of an argument or of an input field.
#[derive(Clone, Debug, PartialEq, Eq)]
pub struct MetaInputValue {
    pub name: String,
    pub description: Option<String>,
    pub ty: String,
    pub default_value: Option<String>,
}

/// The descriptor of a field of an object type. The result type is named, not
/// held.
#[derive(Clone, Debug, PartialEq, Eq)]
pub struct MetaField {
    pub name: String,
    pub description: Option<String>,
    pub args: Vec<MetaInputValue>,
    pub ty: String,
    pub deprecation: Option<String>,
    pub cache_control: CacheControl,
}

/// The descriptor of a type.
#[derive(Clone, Debug, PartialEq, Eq)]
pub enum MetaType {
    Scalar { name: String, description: Option<String> },
    Object { name: String, description: Option<String>, fields: Vec<MetaField>, interfaces: Vec<String> },
    Interface { name: String, description: Option<String>, fields: Vec<MetaField>, possible_types: Vec<String> },
    Union { name: String, description: Option<String>, possible_types: Vec<String> },
    Enum { name: String, description: Option<String>, enum_values: Vec<String> },
    InputObject { name: String, description: Option<String>, input_fields: Vec<MetaInputValue> },
}

impl MetaType {
    /// The type's name, the key under which the registry holds it.
    pub open spec fn spec_name(&self) -> String {
        match self {
            MetaType::Scalar { name, .. } => *name,
            MetaType::Object { name, .. } => *name,
            MetaType::Interface { name, .. } => *name,
            MetaType::Union { name, .. } => *name,
            MetaType::Enum { name, .. } => *name,
            MetaType::InputObject { name, .. } => *name,
        }
    }

    /// The type's description, where it has one.
    pub open spec fn spec_description(&self) -> Option<String> {
        match self {
            MetaType::Scalar { description, .. } => *description,
            MetaType::Object { description, .. } => *description,
            MetaType::Interface { description, .. } => *description,
            MetaType::Union { description, .. } => *description,
            MetaType::Enum { description, .. } => *description,
            MetaType::InputObject { description, .. } => *description,
        }
    }

    /// The type's fields in the order of their declaration; none for a type
    /// that is neither an object nor an interface.
    pub open spec fn spec_fields(&self) -> Seq<MetaField> {
        match self {
            MetaType::Object { fields, .. } => fields@,
            MetaType::Interface { fields, .. } => fields@,
            _ => Seq::empty(),
        }
    }

    /// The names of the interfaces that an object type implements; none for
    /// any other type.
    pub open spec fn spec_interfaces(&self) -> Seq<String> {
        match self {
            MetaType::Object { interfaces, .. } => interfaces@,
            _ => Seq::empty(),
        }
    }

    /// The name of the type's kind, as reflection reports it.
    pub open spec fn spec_kind(&self) -> Seq<char> {
        match self {
            MetaType::Scalar { .. } => "SCALAR"@,
            MetaType::Object { .. } => "OBJECT"@,
            MetaType::Interface { .. } => "INTERFACE"@,
            MetaType::Union { .. } => "UNION"@,
            MetaType::Enum { .. } => "ENUM"@,
            MetaType::InputObject { .. } => "INPUT_OBJECT"@,
        }
    }

    pub fn name(&self) -> (n: &String)
        ensures
            *n == self.spec_name(),
    {
        match self {
            MetaType::Scalar { name, .. } => name,
            MetaType::Object { name, .. } => name,
            MetaType::Interface { name, .. } => name,
            MetaType::Union { name, .. } => name,
            MetaType::Enum { name, .. } => name,
            MetaType::InputObject { name, .. } => name,
        }
    }

    pub fn description(&self) -> (d: &Option<String>)
        ensures
            *d == self.spec_description(),
    {
        match self {
            MetaType::Scalar { description, .. } => description,
            MetaType::Object { description, .. } => description,
            MetaType::Interface { description, .. } => description,
            MetaType::Union { description, .. } => description,
            MetaType::Enum { description, .. } => description,
            MetaType::InputObject { description, .. } => description,
        }
    }

    /// The type's fields, where it is an object or an interface.
    pub fn fields(&self) -> (f: Option<&Vec<MetaField>>)
        ensures
            match f {
                Some(v) => (self is Object || self is Interface) && v@ == self.spec_fields(),
                None => !(self is Object) && !(self is Interface),
            },
    {
        match self {
            MetaType::Object { fields, .. } => Some(fields),
            MetaType::Interface { fields, .. } => Some(fields),
            _ => None,
        }
    }

    pub fn kind(&self) -> (k: &'static str)
        ensures
            k@ == self.spec_kind(),
    {
        match self {
            MetaType::Scalar { .. } => "SCALAR",
            MetaType::Object { .. } => "OBJECT",
            MetaType::Interface { .. } => "INTERFACE",
            MetaType::Union { .. } => "UNION",
            MetaType::Enum { .. } => "ENUM",
            MetaType::InputObject { .. } => "INPUT_OBJECT",
        }
    }
}

/// The names of a sequence of descriptors, in its order.
pub open spec fn type_names(types: Seq<MetaType>) -> Seq<Seq<char>> {
    Seq::new(types.len(), |i: int| types[i].spec_name()@)
}

/// The names of a sequence of fields, in its order.
pub open spec fn field_names(fields: Seq<MetaField>) -> Seq<Seq<char>> {
    Seq::new(fields.len(), |i: int| fields[i].name@)
}

/// `n` occurs in `names`.
pub open spec fn has_name(names: Seq<Seq<char>>, n: Seq<char>) -> bool {
    exists|i: int| 0 <= i < names.len() && names[i] == n
}

/// `i` is the first place of `n` in `names`.
pub open spec fn is_first(names: Seq<Seq<char>>, n: Seq<char>, i: int) -> bool {
    &&& 0 <= i < names.len()
    &&& names[i] == n
    &&& forall|j: int| 0 <= j < i ==> names[j] != n
}

/// No name occurs twice.
pub open spec fn distinct(names: Seq<Seq<char>>) -> bool {
    forall|i: int, j: int| 0 <= i < j < names.len() ==> names[i] != names[j]
}

/// What a sequence of fields is after `f` was merged into it: `f` stands in
/// the place of the first field of its name, and at the end where there is no
/// such field.
pub open spec fn merged_fields(fields: Seq<MetaField>, f: MetaField) -> Seq<MetaField> {
    if has_name(field_names(fields), f.name@) {
        fields.update(choose|i: int| is_first(field_names(fields), f.name@, i), f)
    } else {
        fields.push(f)
    }
}

/// The last write wins: after a merge the merged field stands in the
/// sequence, no field of another name has moved or changed, and the sequence
/// has grown by one at most.
pub proof fn lemma_merged_fields(fields: Seq<MetaField>, f: MetaField)
    ensures
        exists|j: int| 0 <= j < merged_fields(fields, f).len() && #[trigger] merged_fields(fields, f)[j] == f,
        fields.len() <= merged_fields(fields, f).len() <= fields.len() + 1,
        forall|i: int|
            0 <= i < fields.len() && fields[i].name@ != f.name@ ==> #[trigger] merged_fields(fields, f)[i]
                == fields[i],
{
    let m = merged_fields(fields, f);
    let names = field_names(fields);
    if has_name(names, f.name@) {
        let w = choose|i: int| 0 <= i < names.len() && names[i] == f.name@;
        lemma_first_exists(names, f.name@, w);
        let c = choose|i: int| is_first(names, f.name@, i);
        assert(m[c] == f);
    } else {
        assert(m[fields.len() as int] == f);
    }
}

/// A merge under a name that is taken overwrites in place: the names of the
/// fields and their number are what they were.
pub proof fn lemma_merge_taken_name(fields: Seq<MetaField>, f: MetaField)
    requires
        has_name(field_names(fields), f.name@),
    ensures
        field_names(merged_fields(fields, f)) == field_names(fields),
        merged_fields(fields, f).len() == fields.len(),
{
    let names = field_names(fields);
    let w = choose|i: int| 0 <= i < names.len() && names[i] == f.name@;
    lemma_first_exists(names, f.name@, w);
    assert(field_names(merged_fields(fields, f)) =~= names);
}

/// A name that occurs has a first place.
pub proof fn lemma_first_exists(names: Seq<Seq<char>>, n: Seq<char>, w: int)
    requires
        0 <= w < names.len(),
        names[w] == n,
    ensures
        exists|i: int| is_first(names, n, i),
    decreases w,
{
    if exists|j: int| 0 <= j < w && names[j] == n {
        let j = choose|j: int| 0 <= j < w && names[j] == n;
        lemma_first_exists(names, n, j);
    } else {
        assert(is_first(names, n, w));
    }
}

/// What a registry holds after `ty` was registered: nothing new where its
/// name is taken, else `ty` at the end.
pub open spec fn registered(types: Seq<MetaType>, ty: MetaType) -> Seq<MetaType> {
    if has_name(type_names(types), ty.spec_name()@) {
        types
    } else {
        types.push(ty)
    }
}

/// `after` is `before` with more types at its end: nothing that was
/// registered has moved or changed, each new type has a name of `names` that
/// was free before, and every name of `names` is registered in `after`.
pub open spec fn grows(before: Seq<MetaType>, after: Seq<MetaType>, names: Set<Seq<char>>) -> bool {
    &&& before.len() <= after.len()
    &&& forall|i: int| 0 <= i < before.len() ==> #[trigger] after[i] == before[i]
    &&& forall|i: int|
        before.len() <= i < after.len() ==> {
            &&& names.contains(#[trigger] type_names(after)[i])
            &&& !has_name(type_names(before), type_names(after)[i])
        }
    &&& forall|n: Seq<char>| names.contains(n) ==> has_name(type_names(after), n)
}

/// A registry that has grown holds every name that it held.
pub proof fn lemma_grows_keeps(a: Seq<MetaType>, b: Seq<MetaType>, s: Set<Seq<char>>, n: Seq<char>)
    requires
        grows(a, b, s),
        has_name(type_names(a), n),
    ensures
        has_name(type_names(b), n),
{
    let j = choose|j: int| 0 <= j < type_names(a).len() && type_names(a)[j] == n;
    assert(b[j] == a[j]);
    assert(type_names(b)[j] == n);
}

/// A name of a registry that has grown was registered before or is one of
/// the names that it has grown by.
pub proof fn lemma_grows_names(a: Seq<MetaType>, b: Seq<MetaType>, s: Set<Seq<char>>, n: Seq<char>)
    requires
        grows(a, b, s),
        has_name(type_names(b), n),
    ensures
        has_name(type_names(a), n) || s.contains(n),
{
    let j = choose|j: int| 0 <= j < type_names(b).len() && type_names(b)[j] == n;
    if j < a.len() {
        assert(b[j] == a[j]);
        assert(type_names(a)[j] == n);
    } else {
        assert(s.contains(type_names(b)[j]));
    }
}

/// Growth by one set of names and then by another is growth by both.
pub proof fn lemma_grows_chain(
    a: Seq<MetaType>,
    b: Seq<MetaType>,
    c: Seq<MetaType>,
    s1: Set<Seq<char>>,
    s2: Set<Seq<char>>,
)
    requires
        grows(a, b, s1),
        grows(b, c, s2),
    ensures
        grows(a, c, s1.union(s2)),
{
    assert forall|i: int| 0 <= i < a.len() implies #[trigger] c[i] == a[i] by {
        assert(c[i] == b[i]);
        assert(b[i] == a[i]);
    }
    assert forall|i: int| a.len() <= i < c.len() implies s1.union(s2).contains(#[trigger] type_names(c)[i])
        && !has_name(type_names(a), type_names(c)[i]) by {
        let n = type_names(c)[i];
        if i < b.len() {
            assert(c[i] == b[i]);
            assert(type_names(b)[i] == n);
        } else {
            if has_name(type_names(a), n) {
                lemma_grows_keeps(a, b, s1, n);
            }
        }
    }
    assert forall|n: Seq<char>| s1.union(s2).contains(n) implies has_name(type_names(c), n) by {
        if s1.contains(n) {
            lemma_grows_keeps(b, c, s2, n);
        }
    }
}

/// Where every name was registered already, nothing has changed.
pub proof fn lemma_grows_nothing_new(a: Seq<MetaType>, b: Seq<MetaType>, s: Set<Seq<char>>)
    requires
        grows(a, b, s),
        forall|n: Seq<char>| s.contains(n) ==> has_name(type_names(a), n),
    ensures
        b == a,
{
    if a.len() < b.len() {
        let n = type_names(b)[a.len() as int];
        assert(s.contains(n));
        assert(has_name(type_names(a), n));
    }
    assert(b =~= a);
}

/// In each type no two fields share a name: the fields of a type are a
/// mapping from names.
pub open spec fn unique_fields(types: Seq<MetaType>) -> bool {
    forall|i: int| 0 <= i < types.len() ==> distinct(field_names(#[trigger] types[i].spec_fields()))
}

/// A merge keeps the names of a type's fields distinct.
pub proof fn lemma_merged_fields_distinct(fields: Seq<MetaField>, f: MetaField)
    requires
        distinct(field_names(fields)),
    ensures
        distinct(field_names(merged_fields(fields, f))),
{
    let m = merged_fields(fields, f);
    let names = field_names(fields);
    if has_name(names, f.name@) {
        let w = choose|i: int| 0 <= i < names.len() && names[i] == f.name@;
        lemma_first_exists(names, f.name@, w);
        assert(field_names(m) =~= names);
    } else {
        assert forall|i: int, j: int| 0 <= i < j < m.len() implies field_names(m)[i] != field_names(m)[j] by {
            assert(field_names(m)[i] == names[i]);
            if j < fields.len() {
                assert(field_names(m)[j] == names[j]);
            }
        }
    }
}

/// Registration is idempotent: to register a type a second time changes
/// nothing, so a type that is met again holds one entry under one key; and no
/// registration makes a name stand twice.
pub proof fn lemma_register_idempotent(types: Seq<MetaType>, ty: MetaType)
    ensures
        registered(registered(types, ty), ty) == registered(types, ty),
        has_name(type_names(registered(types, ty)), ty.spec_name()@),
        distinct(type_names(types)) ==> distinct(type_names(registered(types, ty))),
{
    let once = registered(types, ty);
    if !has_name(type_names(types), ty.spec_name()@) {
        assert(type_names(once)[types.len() as int] == ty.spec_name()@);
        if distinct(type_names(types)) {
            assert forall|i: int, j: int| 0 <= i < j < once.len() implies type_names(once)[i] != type_names(
                once,
            )[j] by {
                assert(type_names(once)[i] == type_names(types)[i]);
                if j < types.len() {
                    assert(type_names(once)[j] == type_names(types)[j]);
                }
            }
        }
    }
}

/// The place of the first field of the name `n`.
pub fn find_field(fields: &Vec<MetaField>, n: &String) -> (r: Option<usize>)
    ensures
        match r {
            Some(i) => is_first(field_names(fields@), n@, i as int),
            None => !has_name(field_names(fields@), n@),
        },
{
    let mut i: usize = 0;
    while i < fields.len()
        invariant
            i <= fields.len(),
            forall|j: int| 0 <= j < i ==> field_names(fields@)[j] != n@,
        decreases fields.len() - i,
    {
        if fields[i].name == *n {
            return Some(i);
        }
        i += 1;
    }
    None
}

/// Merges `f` into `fields`: a field of the same name is overwritten in its
/// place, a new name is appended.
pub fn merge_field(fields: &mut Vec<MetaField>, f: MetaField)
    ensures
        final(fields)@ == merged_fields(old(fields)@, f),
        distinct(field_names(old(fields)@)) ==> distinct(field_names(final(fields)@)),
{
    proof {
        if distinct(field_names(fields@)) {
            lemma_merged_fields_distinct(fields@, f);
        }
    }
    match find_field(fields, &f.name) {
        Some(i) => {
            proof {
                let names = field_names(fields@);
                let c = choose|k: int| is_first(names, f.name@, k);
                assert(is_first(names, f.name@, i as int));
                assert(c == i) by {
                    if c < i {
                        assert(names[c] != f.name@);
                    } else if i < c {
                        assert(names[i as int] != f.name@);
                    }
                }
            }
            fields.set(i, f);
        },
        None => {
            fields.push(f);
        },
    }
}

/// The registry: every type descriptor of one schema, in the order of
/// registration.
#[derive(Debug, PartialEq, Eq)]
pub struct Registry {
    pub types: Vec<MetaType>,
}

impl View for Registry {
    type V = Seq<MetaType>;

    open spec fn view(&self) -> Seq<MetaType> {
        self.types@
    }
}

impl Registry {
    /// The names of the registered types, in the order of registration.
    pub open spec fn names(&self) -> Seq<Seq<char>> {
        type_names(self@)
    }

    /// No two registered types share a name.
    pub open spec fn wf(&self) -> bool {
        distinct(self.names())
    }

    /// A type of the name `n` is registered.
    pub open spec fn contains(&self, n: Seq<char>) -> bool {
        has_name(self.names(), n)
    }

    /// The descriptor registered under the name `n`; none where the name is
    /// free.
    pub open spec fn spec_get(&self, n: Seq<char>) -> Option<MetaType> {
        if exists|i: int| is_first(self.names(), n, i) {
            Some(self@[choose|i: int| is_first(self.names(), n, i)])
        } else {
            None
        }
    }

    /// A registry without types.
    pub fn new() -> (r: Registry)
        ensures
            r@ == Seq::<MetaType>::empty(),
            r.wf(),
    {
        Registry { types: Vec::new() }
    }

    /// The place of the type of the name `n`.
    pub fn find(&self, n: &String) -> (r: Option<usize>)
        ensures
            match r {
                Some(i) => is_first(self.names(), n@, i as int),
                None => !self.contains(n@),
            },
    {
        let mut i: usize = 0;
        while i < self.types.len()
            invariant
                i <= self.types.len(),
                forall|j: int| 0 <= j < i ==> self.names()[j] != n@,
            decreases self.types.len() - i,
        {
            if *self.types[i].name() == *n {
                return Some(i);
            }
            i += 1;
        }
        None
    }

    /// The descriptor of the type of the name `n`; none where no such type is
    /// registered.
    pub fn get(&self, n: &String) -> (r: Option<&MetaType>)
        ensures
            match r {
                Some(t) => exists|i: int| is_first(self.names(), n@, i) && *t == self@[i],
                None => !self.contains(n@),
            },
            match r {
                Some(t) => self.spec_get(n@) == Some(*t),
                None => self.spec_get(n@) is None,
            },
    {
        match self.find(n) {
            Some(i) => {
                proof {
                    let c = choose|k: int| is_first(self.names(), n@, k);
                    assert(is_first(self.names(), n@, i as int));
                    assert(c == i) by {
                        if c < i {
                            assert(self.names()[c] != n@);
                        } else if i < c {
                            assert(self.names()[i as int] != n@);
                        }
                    }
                }
                Some(&self.types[i])
            },
            None => {
                assert forall|k: int| !is_first(self.names(), n@, k) by {
                    if 0 <= k < self.names().len() {
                        assert(self.names()[k] == n@ ==> self.contains(n@));
                    }
                }
                None
            },
        }
    }

    /// Registers `ty` under its name and returns that name, the type's key.
    /// Where the name is already registered nothing changes: a type that is
    /// met again, as in a cycle of types, is neither rebuilt nor held twice.
    pub fn register(&mut self, ty: MetaType) -> (key: String)
        ensures
            key@ == ty.spec_name()@,
            final(self)@ == registered(old(self)@, ty),
            grows(old(self)@, final(self)@, set![key@]),
            unique_fields(old(self)@) && distinct(field_names(ty.spec_fields())) ==> unique_fields(final(self)@),
            old(self).wf() ==> final(self).wf(),
            final(self).contains(key@),
            forall|n: Seq<char>| old(self).contains(n) ==> final(self).contains(n),
    {
        let key = ty.name().clone();
        match self.find(&key) {
            Some(i) => {
                assert(self.names()[i as int] == key@);
                key
            },
            None => {
                self.types.push(ty);
                proof {
                    let n = self.names();
                    assert(n[n.len() - 1] == key@);
                    assert forall|i: int| 0 <= i < n.len() - 1 implies n[i] == old(self).names()[i] by {}
                    assert forall|m: Seq<char>| old(self).contains(m) implies self.contains(m) by {
                        let i = choose|i: int| 0 <= i < old(self).names().len() && old(self).names()[i] == m;
                        assert(n[i] == m);
                    }
                    assert(type_names(self@)[old(self)@.len() as int] == key@);
                    assert(set![key@].contains(key@));
                }
                key
            },
        }
    }

    /// Reserves the name `n` for a type that is about to be built: where the
    /// name is free, an object type without fields is registered under it
    /// and the answer is `true`; where it is taken nothing changes. A type
    /// reserves its name before it registers the types of its fields, so that
    /// a cycle of types ends where it meets the name again.
    pub fn reserve(&mut self, n: &str) -> (fresh: bool)
        ensures
            fresh == !old(self).contains(n@),
            !fresh ==> final(self)@ == old(self)@,
            fresh ==> {
                &&& final(self)@.len() == old(self)@.len() + 1
                &&& final(self)@.drop_last() == old(self)@
                &&& final(self)@.last() is Object
                &&& final(self)@.last().spec_name()@ == n@
                &&& final(self)@.last().spec_description() is None
                &&& final(self)@.last().spec_fields().len() == 0
                &&& final(self)@.last().spec_interfaces().len() == 0
            },
            old(self).wf() ==> final(self).wf(),
            unique_fields(old(self)@) ==> unique_fields(final(self)@),
            final(self).contains(n@),
            forall|m: Seq<char>| old(self).contains(m) ==> final(self).contains(m),
    {
        let name = n.to_owned();
        match self.find(&name) {
            Some(_) => false,
            None => {
                self.register(
                    MetaType::Object { name, description: None, fields: Vec::new(), interfaces: Vec::new() },
                );
                assert(self@.drop_last() =~= old(self)@);
                true
            },
        }
    }

    /// Puts `ty` in the place of the descriptor that is registered under its
    /// name; registers it where the name is free.
    pub fn define(&mut self, ty: MetaType)
        ensures
            forall|i: int| is_first(old(self).names(), ty.spec_name()@, i) ==> final(self)@ == old(self)@.update(i, ty),
            !old(self).contains(ty.spec_name()@) ==> final(self)@ == old(self)@.push(ty),
            old(self).contains(ty.spec_name()@) ==> final(self).names() == old(self).names(),
            old(self).wf() ==> final(self).wf(),
            unique_fields(old(self)@) && distinct(field_names(ty.spec_fields())) ==> unique_fields(final(self)@),
            final(self).contains(ty.spec_name()@),
            forall|m: Seq<char>| old(self).contains(m) ==> final(self).contains(m),
    {
        match self.find(ty.name()) {
            Some(i) => {
                proof {
                    assert forall|k: int| is_first(self.names(), ty.spec_name()@, k) implies k == i by {
                        if k < i {
                            assert(self.names()[k] != ty.spec_name()@);
                        } else if i < k {
                            assert(self.names()[i as int] != ty.spec_name()@);
                        }
                    }
                }
                self.types.set(i, ty);
                assert(self.names() =~= old(self).names());
            },
            None => {
                self.register(ty);
            },
        }
    }

    /// Merges the field `f` into the object type of the name `n`: a field of
    /// the same name is overwritten, the last write wins. Where `n` names no
    /// object type nothing changes.
    pub fn merge_field(&mut self, n: &String, f: MetaField)
        ensures
            final(self).merged_from(*old(self), n@, f),
            unique_fields(old(self)@) ==> unique_fields(final(self)@),
    {
        match self.find(n) {
            Some(i) => {
                let t = self.types.remove(i);
                let t2 = match t {
                    MetaType::Object { name, description, mut fields, interfaces } => {
                        merge_field(&mut fields, f);
                        MetaType::Object { name, description, fields, interfaces }
                    },
                    other => other,
                };
                self.types.insert(i, t2);
                proof {
                    assert(self@.len() == old(self)@.len());
                    assert forall|j: int| 0 <= j < self@.len() && j != i implies self@[j] == old(self)@[j] by {}
                    assert(self.names() =~= old(self).names());
                    if unique_fields(old(self)@) {
                        assert forall|j: int| 0 <= j < self@.len() implies distinct(
                            field_names(#[trigger] self@[j].spec_fields()),
                        ) by {
                            assert(distinct(field_names(old(self)@[j].spec_fields())));
                        }
                    }
                }
            },
            None => {},
        }
    }

    /// `self` is `before` with the field `f` merged into the object type of
    /// the name `n`.
    pub open spec fn merged_from(&self, before: Registry, n: Seq<char>, f: MetaField) -> bool {
        &&& self.names() == before.names()
        &&& forall|i: int|
            0 <= i < before@.len() && !(is_first(before.names(), n, i) && before@[i] is Object)
                ==> #[trigger] self@[i] == before@[i]
        &&& forall|i: int| is_first(before.names(), n, i) && #[trigger] before@[i] is Object ==> {
            &&& self@[i] is Object
            &&& self@[i].spec_description() == before@[i].spec_description()
            &&& self@[i].spec_interfaces() == before@[i].spec_interfaces()
            &&& self@[i].spec_fields() == merged_fields(before@[i].spec_fields(), f)
        }
    }
}

} // verus!
