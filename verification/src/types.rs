use vstd::prelude::*;
use vstd::string::StringExecFns;

use crate::ident::Ident;

verus! {

/// The canonical rendering of a type.
pub open spec fn render_spec(t: Type) -> Seq<char>
    decreases t,
{
    match t {
        Type::Number => "Number"@,
        Type::Bool => "Bool"@,
        Type::Text => "Text"@,
        Type::Unit => "Unit"@,
        Type::Record(ctx) => "Record {"@ + render_fields_spec(ctx.entries@) + "}"@,
        Type::List(el) => "List("@ + render_spec(*el) + ")"@,
    }
}

/// The canonical rendering of a record's fields: `name: type`, comma
/// separated, in entry order.
pub open spec fn render_fields_spec(s: Seq<(Ident, Type)>) -> Seq<char>
    decreases s,
{
    if s.len() == 0 {
        Seq::empty()
    } else {
        render_fields_spec(s.drop_last()) + (if s.len() > 1 {
            ", "@
        } else {
            Seq::<char>::empty()
        }) + s.last().0@ + ": "@ + render_spec(s.last().1)
    }
}

/// The closed set of types expressible in the language.
///
/// Types are immutable values, structurally comparable: two records are equal
/// exactly when they have the same key set and pairwise-equal field types,
/// and two lists are equal exactly when their element types are. There is no
/// implicit coercion between variants.
#[derive(Debug, PartialEq)]
pub enum Type {
    Number,
    Bool,
    Text,
    Unit,
    Record(TypeContext),
    List(Box<Type>),
}

/// A mapping from identifiers to types: both the typing environment consulted
/// for variable references and the field table carried by a record type.
///
/// A well-formed mapping binds each identifier at most once (see
/// [`TypeContext::wf`]); its abstract value is the map from identifier name
/// to the abstract value of the bound type.
#[derive(Debug, PartialEq)]
pub struct TypeContext {
    pub entries: Vec<(Ident, Type)>,
}

/// The abstract value of a [`Type`]: the same closed variant set with a
/// record's field table read as a mathematical map from name to type.
pub enum TypeV {
    Number,
    Bool,
    Text,
    Unit,
    Record(Map<Seq<char>, TypeV>),
    List(Box<TypeV>),
}

/// The abstract value of a [`Type`].
pub open spec fn type_view(t: Type) -> TypeV
    decreases t,
{
    match t {
        Type::Number => TypeV::Number,
        Type::Bool => TypeV::Bool,
        Type::Text => TypeV::Text,
        Type::Unit => TypeV::Unit,
        Type::Record(ctx) => TypeV::Record(fields_view(ctx.entries@)),
        Type::List(el) => TypeV::List(Box::new(type_view(*el))),
    }
}

/// The map bound by a sequence of (identifier, type) entries; a later entry
/// for the same name overrides an earlier one, which a well-formed sequence
/// (unique keys) never exercises.
pub open spec fn fields_view(s: Seq<(Ident, Type)>) -> Map<Seq<char>, TypeV>
    decreases s,
{
    if s.len() == 0 {
        Map::empty()
    } else {
        fields_view(s.drop_last()).insert(s.last().0@, type_view(s.last().1))
    }
}

/// No two entries bind the same identifier.
pub open spec fn keys_unique(s: Seq<(Ident, Type)>) -> bool {
    forall|i: int, j: int| 0 <= i < j < s.len() ==> s[i].0@ != s[j].0@
}

/// Every entry sequence of a well-formed mapping has unique keys and
/// well-formed types, recursively.
pub open spec fn fields_wf(s: Seq<(Ident, Type)>) -> bool
    decreases s,
{
    keys_unique(s) && (forall|i: int| 0 <= i < s.len() ==> (#[trigger] s[i].1).wf())
}

impl View for Type {
    type V = TypeV;

    open spec fn view(&self) -> TypeV {
        type_view(*self)
    }
}

impl Type {
    /// A type is well formed when every record inside it binds each field
    /// name at most once.
    pub open spec fn wf(&self) -> bool
        decreases self,
    {
        match self {
            Type::Record(ctx) => ctx.wf(),
            Type::List(el) => el.wf(),
            _ => true,
        }
    }

    /// Decides well-formedness: whether every record inside this type binds
    /// each field name at most once.
    pub fn check_wf(&self) -> (b: bool)
        ensures
            b == self.wf(),
        decreases self,
    {
        match self {
            Type::Record(ctx) => ctx.check_wf(),
            Type::List(el) => el.check_wf(),
            _ => true,
        }
    }

    /// Whether this type is a record.
    pub fn is_record(&self) -> (b: bool)
        ensures
            b == (self@ is Record),
    {
        match self {
            Type::Record(_) => true,
            _ => false,
        }
    }

    /// The field mapping, when this type is a record.
    pub fn as_record(&self) -> (r: Option<&TypeContext>)
        ensures
            match r {
                Some(fields) => self@ == TypeV::Record(fields@) && (self.wf() ==> fields.wf()),
                None => !(self@ is Record),
            },
    {
        match self {
            Type::Record(fields) => Some(fields),
            _ => None,
        }
    }

    /// The canonical human-readable rendering of this type.
    pub fn render(&self) -> (r: String)
        ensures
            r@ == render_spec(*self),
        decreases self,
    {
        match self {
            Type::Number => "Number".to_owned(),
            Type::Bool => "Bool".to_owned(),
            Type::Text => "Text".to_owned(),
            Type::Unit => "Unit".to_owned(),
            Type::Record(ctx) => {
                let mut out = "Record {".to_owned();
                let fields = ctx.render_fields();
                out.append(fields.as_str());
                out.append("}");
                out
            },
            Type::List(el) => {
                let mut out = "List(".to_owned();
                let inner = el.render();
                out.append(inner.as_str());
                out.append(")");
                out
            },
        }
    }

    /// An independently owned copy with the same abstract value.
    pub fn deep_clone(&self) -> (r: Type)
        ensures
            r@ == self@,
            r.wf() <==> self.wf(),
        decreases self,
    {
        match self {
            Type::Number => Type::Number,
            Type::Bool => Type::Bool,
            Type::Text => Type::Text,
            Type::Unit => Type::Unit,
            Type::Record(ctx) => Type::Record(ctx.deep_clone()),
            Type::List(el) => Type::List(Box::new(el.deep_clone())),
        }
    }
}

impl View for TypeContext {
    type V = Map<Seq<char>, TypeV>;

    open spec fn view(&self) -> Map<Seq<char>, TypeV> {
        fields_view(self.entries@)
    }
}

impl TypeContext {
    /// A mapping is well formed when its keys are unique and every bound
    /// type is well formed.
    pub open spec fn wf(&self) -> bool
        decreases self,
    {
        fields_wf(self.entries@)
    }

    /// An empty mapping.
    pub fn new() -> (r: TypeContext)
        ensures
            r@ == Map::<Seq<char>, TypeV>::empty(),
            r.wf(),
    {
        TypeContext { entries: Vec::new() }
    }

    /// Looks an identifier up; `None` exactly when the mapping does not bind
    /// it. The only data source for variable and record-field resolution.
    pub fn get(&self, id: &Ident) -> (r: Option<&Type>)
        requires
            self.wf(),
        ensures
            match r {
                Some(t) => self@.contains_key(id@) && t@ == self@[id@] && t.wf(),
                None => !self@.contains_key(id@),
            },
    {
        proof {
            lemma_fields_view_contains(self.entries@);
        }
        let n = self.entries.len();
        let mut i: usize = 0;
        while i < n
            invariant
                self.wf(),
                n == self.entries.len(),
                i <= n,
                forall|j: int| 0 <= j < i ==> self.entries@[j].0@ != id@,
            decreases n - i,
        {
            let pair = &self.entries[i];
            if pair.0 == *id {
                proof {
                    lemma_fields_view_unique(self.entries@, i as int);
                }
                return Some(&pair.1);
            }
            i += 1;
        }
        proof {
            lemma_fields_view_contains(self.entries@);
        }
        None
    }

    /// Decides well-formedness of the whole mapping.
    pub fn check_wf(&self) -> (b: bool)
        ensures
            b == self.wf(),
        decreases self,
    {
        let n = self.entries.len();
        let mut i: usize = 0;
        while i < n
            invariant
                n == self.entries.len(),
                i <= n,
                forall|a: int, b: int| 0 <= a < b < self.entries@.len() && a < i ==> self.entries@[a].0@ != self.entries@[b].0@,
                forall|a: int| 0 <= a < i ==> (#[trigger] self.entries@[a].1).wf(),
            decreases n - i,
        {
            let mut j: usize = i + 1;
            while j < n
                invariant
                    n == self.entries.len(),
                    i < j <= n,
                    forall|b: int| i < b < j ==> self.entries@[i as int].0@ != self.entries@[b].0@,
                decreases n - j,
            {
                if self.entries[i].0 == self.entries[j].0 {
                    return false;
                }
                j += 1;
            }
            if !self.entries[i].1.check_wf() {
                return false;
            }
            i += 1;
        }
        true
    }

    /// The canonical rendering of the entries, in entry order.
    #[verifier::loop_isolation(false)]
    pub fn render_fields(&self) -> (r: String)
        ensures
            r@ == render_fields_spec(self.entries@),
        decreases self,
    {
        let n = self.entries.len();
        let mut out = String::new();
        let mut i: usize = 0;
        while i < n
            invariant
                i <= n,
                out@ == render_fields_spec(self.entries@.subrange(0, i as int)),
            decreases n - i,
        {
            let ghost pre = self.entries@.subrange(0, i as int);
            if i > 0 {
                out.append(", ");
            }
            let pair = &self.entries[i];
            out.append(pair.0.as_str());
            out.append(": ");
            let inner = pair.1.render();
            out.append(inner.as_str());
            i += 1;
            proof {
                let cur = self.entries@.subrange(0, i as int);
                assert(cur.drop_last() =~= pre);
                assert(cur.last() == self.entries@[i - 1]);
                assert(out@ =~= render_fields_spec(cur));
            }
        }
        proof {
            assert(self.entries@.subrange(0, n as int) =~= self.entries@);
        }
        out
    }

    /// An independently owned copy with the same abstract value.
    pub fn deep_clone(&self) -> (r: TypeContext)
        ensures
            r@ == self@,
            r.wf() <==> self.wf(),
        decreases self,
    {
        let n = self.entries.len();
        let mut out: Vec<(Ident, Type)> = Vec::new();
        let mut i: usize = 0;
        while i < n
            invariant
                n == self.entries.len(),
                i <= n,
                out@.len() == i,
                forall|j: int| 0 <= j < i ==> (#[trigger] out@[j]).0@ == self.entries@[j].0@
                    && out@[j].1@ == self.entries@[j].1@
                    && (out@[j].1.wf() <==> self.entries@[j].1.wf()),
            decreases n - i,
        {
            let pair = &self.entries[i];
            out.push((pair.0.clone(), pair.1.deep_clone()));
            i += 1;
        }
        proof {
            lemma_fields_view_congruence(out@, self.entries@);
            if keys_unique(self.entries@) {
                assert forall|a: int, b: int| 0 <= a < b < out@.len() implies out@[a].0@
                    != out@[b].0@ by {
                    assert(self.entries@[a].0@ != self.entries@[b].0@);
                }
            }
            if keys_unique(out@) {
                assert forall|a: int, b: int| 0 <= a < b < self.entries@.len()
                    implies self.entries@[a].0@ != self.entries@[b].0@ by {
                    assert(out@[a].0@ != out@[b].0@);
                }
            }
            if fields_wf(self.entries@) {
                assert forall|j: int| 0 <= j < out@.len() implies (#[trigger] out@[j].1).wf() by {
                    assert(self.entries@[j].1.wf());
                }
            }
            if fields_wf(out@) {
                assert forall|j: int| 0 <= j < self.entries@.len()
                    implies (#[trigger] self.entries@[j].1).wf() by {
                    assert(out@[j].1.wf());
                }
            }
        }
        TypeContext { entries: out }
    }
}

/// A name is in the map bound by an entry sequence exactly when some entry
/// binds it.
pub proof fn lemma_fields_view_contains(s: Seq<(Ident, Type)>)
    ensures
        forall|k: Seq<char>| #[trigger] fields_view(s).contains_key(k)
            <==> exists|i: int| 0 <= i < s.len() && s[i].0@ == k,
    decreases s.len(),
{
    if s.len() == 0 {
        assert(fields_view(s) == Map::<Seq<char>, TypeV>::empty());
    } else {
        let t = s.drop_last();
        lemma_fields_view_contains(t);
        assert(fields_view(s) == fields_view(t).insert(s.last().0@, type_view(s.last().1)));
        assert forall|k: Seq<char>| #[trigger] fields_view(s).contains_key(k)
            implies exists|i: int| 0 <= i < s.len() && s[i].0@ == k by {
            if k == s.last().0@ {
                assert(s[s.len() - 1].0@ == k);
            } else {
                assert(fields_view(t).contains_key(k));
                let i = choose|i: int| 0 <= i < t.len() && t[i].0@ == k;
                assert(t[i] == s[i]);
                assert(s[i].0@ == k);
            }
        }
        assert forall|k: Seq<char>| (exists|i: int| 0 <= i < s.len() && s[i].0@ == k)
            implies #[trigger] fields_view(s).contains_key(k) by {
            let i = choose|i: int| 0 <= i < s.len() && s[i].0@ == k;
            if i < s.len() - 1 {
                assert(t[i].0@ == k);
                assert(fields_view(t).contains_key(k));
            }
        }
    }
}

/// With unique keys, the map bound by an entry sequence agrees with every
/// entry.
pub proof fn lemma_fields_view_unique(s: Seq<(Ident, Type)>, i: int)
    requires
        keys_unique(s),
        0 <= i < s.len(),
    ensures
        fields_view(s).contains_key(s[i].0@),
        fields_view(s)[s[i].0@] == type_view(s[i].1),
    decreases s.len(),
{
    if i == s.len() - 1 {
        assert(fields_view(s) == fields_view(s.drop_last()).insert(s.last().0@, type_view(s.last().1)));
    } else {
        assert(keys_unique(s.drop_last())) by {
            assert(forall|a: int, b: int| 0 <= a < b < s.drop_last().len()
                ==> s.drop_last()[a] == s[a] && s.drop_last()[b] == s[b]);
        }
        assert(s.drop_last()[i] == s[i]);
        lemma_fields_view_unique(s.drop_last(), i);
        assert(s[i].0@ != s.last().0@);
    }
}

/// Entry sequences with pairwise equal names and equal type values bind
/// equal maps.
pub proof fn lemma_fields_view_congruence(s1: Seq<(Ident, Type)>, s2: Seq<(Ident, Type)>)
    requires
        s1.len() == s2.len(),
        forall|j: int| 0 <= j < s1.len() ==> (#[trigger] s1[j]).0@ == s2[j].0@ && s1[j].1@ == s2[j].1@,
    ensures
        fields_view(s1) == fields_view(s2),
    decreases s1.len(),
{
    if s1.len() > 0 {
        assert(forall|j: int| 0 <= j < s1.drop_last().len()
            ==> s1.drop_last()[j] == s1[j] && s2.drop_last()[j] == s2[j]);
        lemma_fields_view_congruence(s1.drop_last(), s2.drop_last());
        assert(s1.last() == s1[s1.len() - 1]);
        assert(s2.last() == s2[s1.len() - 1]);
    }
}

} // verus!
