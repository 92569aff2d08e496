//! The catalog: named relations and native functions.
use vstd::prelude::*;
use crate::value::{distinct_keys, find_key, lemma_find_key_bounds};

verus! {

/// Relies on `str::to_lowercase`: the result depends on the characters alone.
pub uninterp spec fn lower_of(s: Seq<char>) -> Seq<char>;

/// An external stream registered under a relation name.
#[derive(Debug)]
pub struct KinesisStream {
    pub kinesis_stream_name: String,
    pub kinesis_stream_arn: String,
    pub kinesis_stream_consumer_arn: String,
}

#[derive(Debug)]
pub enum RelationDefinition {
    KinesisStream(KinesisStream),
}

/// The built-in functions.
#[derive(Clone, Copy, Debug, PartialEq, Eq, Structural)]
pub enum NativeFunction {
    /// `lower(text)`: the text in lower case.
    Lower,
}

#[derive(Clone, Copy, Debug, PartialEq, Eq, Structural)]
pub enum FunctionDefinition {
    NativeFunction(NativeFunction),
}

/// Model of a relation: stream name, stream ARN, consumer ARN.
pub struct StreamV {
    pub name: Seq<char>,
    pub arn: Seq<char>,
    pub consumer_arn: Seq<char>,
}

pub open spec fn relation_view(r: &RelationDefinition) -> StreamV {
    match r {
        RelationDefinition::KinesisStream(k) => StreamV {
            name: k.kinesis_stream_name@,
            arn: k.kinesis_stream_arn@,
            consumer_arn: k.kinesis_stream_consumer_arn@,
        },
    }
}

impl View for RelationDefinition {
    type V = StreamV;

    open spec fn view(&self) -> StreamV {
        relation_view(self)
    }
}

/// Model of the catalog: its two name tables, in order of registration.
pub struct CatalogV {
    pub relations: Seq<(Seq<char>, StreamV)>,
    pub functions: Seq<(Seq<char>, FunctionDefinition)>,
}

/// The entry of `t` named `k`.
pub open spec fn find<V>(t: Seq<(Seq<char>, V)>, k: Seq<char>) -> Option<V> {
    let i = find_key(t, k, 0);
    if i < 0 {
        None
    } else {
        Some(t[i].1)
    }
}

/// The name `lower`.
pub open spec fn lower_name() -> Seq<char> {
    seq!['l', 'o', 'w', 'e', 'r']
}

/// Name tables: relations and functions, each name at most once.
#[derive(Debug)]
pub struct Catalog {
    pub relations: Vec<(String, RelationDefinition)>,
    pub functions: Vec<(String, FunctionDefinition)>,
}

impl View for Catalog {
    type V = CatalogV;

    open spec fn view(&self) -> CatalogV {
        CatalogV {
            relations: self.relations@.map_values(
                |e: (String, RelationDefinition)| (e.0@, e.1@),
            ),
            functions: self.functions@.map_values(
                |e: (String, FunctionDefinition)| (e.0@, e.1),
            ),
        }
    }
}

impl Catalog {
    /// Each name stands at most once in each table.
    pub open spec fn wf(&self) -> bool {
        distinct_keys(self@.relations) && distinct_keys(self@.functions)
    }

    /// An empty catalog with the built-in functions registered.
    pub fn new() -> (r: Catalog)
        ensures
            r@.relations.len() == 0,
            r@.functions == seq![(lower_name(), FunctionDefinition::NativeFunction(NativeFunction::Lower))],
            r.wf(),
    {
        let mut functions: Vec<(String, FunctionDefinition)> = Vec::new();
        let name = String::from_str("lower");
        proof {
            reveal_strlit("lower");
            assert(name@ =~= lower_name());
        }
        functions.push((name, FunctionDefinition::NativeFunction(NativeFunction::Lower)));
        let r = Catalog { relations: Vec::new(), functions };
        assert(r@.functions =~= seq![(lower_name(), FunctionDefinition::NativeFunction(NativeFunction::Lower))]);
        r
    }

    fn relation_position(&self, name: &String) -> (r: Option<usize>)
        ensures
            r is None <==> find_key(self@.relations, name@, 0) == -1,
            r matches Some(i) ==> i == find_key(self@.relations, name@, 0),
    {
        let mut i: usize = 0;
        while i < self.relations.len()
            invariant
                i <= self.relations.len(),
                find_key(self@.relations, name@, 0) == find_key(self@.relations, name@, i as int),
            decreases self.relations.len() - i,
        {
            if self.relations[i].0.eq(name) {
                return Some(i);
            }
            i += 1;
        }
        None
    }

    fn function_position(&self, name: &String) -> (r: Option<usize>)
        ensures
            r is None <==> find_key(self@.functions, name@, 0) == -1,
            r matches Some(i) ==> i == find_key(self@.functions, name@, 0),
    {
        let mut i: usize = 0;
        while i < self.functions.len()
            invariant
                i <= self.functions.len(),
                find_key(self@.functions, name@, 0) == find_key(self@.functions, name@, i as int),
            decreases self.functions.len() - i,
        {
            if self.functions[i].0.eq(name) {
                return Some(i);
            }
            i += 1;
        }
        None
    }

    /// The relation registered under `name`.
    pub fn lookup_relation(&self, name: &String) -> (r: Option<&RelationDefinition>)
        ensures
            r is None <==> find(self@.relations, name@) is None,
            r matches Some(d) ==> find(self@.relations, name@) == Some(d@),
    {
        proof {
            lemma_find_key_bounds(self@.relations, name@, 0);
        }
        match self.relation_position(name) {
            Some(i) => Some(&self.relations[i].1),
            None => None,
        }
    }

    /// The function registered under `name`.
    pub fn lookup_function(&self, name: &String) -> (r: Option<FunctionDefinition>)
        ensures
            r == find(self@.functions, name@),
    {
        proof {
            lemma_find_key_bounds(self@.functions, name@, 0);
        }
        match self.function_position(name) {
            Some(i) => Some(self.functions[i].1),
            None => None,
        }
    }

    /// Registers a relation under a new name; a name already taken is
    /// refused and leaves the catalog as it was. Returns whether it was added.
    pub fn register_relation(&mut self, name: String, definition: RelationDefinition) -> (added: bool)
        ensures
            added == (find(old(self)@.relations, name@) is None),
            added ==> final(self)@.relations == old(self)@.relations.push((name@, definition@)),
            !added ==> final(self)@.relations == old(self)@.relations,
            final(self)@.functions == old(self)@.functions,
            old(self).wf() ==> final(self).wf(),
    {
        proof {
            lemma_find_key_bounds(self@.relations, name@, 0);
        }
        let ghost before = self@;
        match self.relation_position(&name) {
            Some(_) => false,
            None => {
                let ghost entry = (name@, definition@);
                self.relations.push((name, definition));
                assert(self@.relations =~= before.relations.push(entry));
                assert(self@.functions =~= before.functions);
                true
            },
        }
    }

    /// Registers a function, replacing any earlier one of the same name.
    pub fn register_function(&mut self, name: String, definition: FunctionDefinition)
        ensures
            find_key(old(self)@.functions, name@, 0) < 0 ==> final(self)@.functions
                == old(self)@.functions.push((name@, definition)),
            find_key(old(self)@.functions, name@, 0) >= 0 ==> final(self)@.functions
                == old(self)@.functions.update(find_key(old(self)@.functions, name@, 0), (name@, definition)),
            final(self)@.relations == old(self)@.relations,
            old(self).wf() ==> final(self).wf(),
    {
        proof {
            lemma_find_key_bounds(self@.functions, name@, 0);
            crate::value::lemma_find_key_first(self@.functions, name@, 0);
        }
        let ghost before = self@;
        let ghost k = name@;
        match self.function_position(&name) {
            Some(i) => {
                self.functions[i] = (name, definition);
                assert(self@.functions =~= before.functions.update(i as int, (k, definition)));
            },
            None => {
                self.functions.push((name, definition));
                assert(self@.functions =~= before.functions.push((k, definition)));
            },
        }
        assert(self@.relations =~= before.relations);
    }
}

} // verus!
