//! Compiled JSON Schemas and the content-keyed schema cache.
//!
//! A compiled schema pairs the engine's opaque handle with the ghost source it
//! was compiled from; the source is the schema's identity in every contract.
//! The cache never reads the filesystem itself: the caller hands it the
//! outcome of the one file read a miss needs.

use vstd::prelude::*;

use crate::error::{Error, ErrorV};
use crate::json::{JsonV, JsonValue};
use crate::trusted::{
    compile_validator, engine_same_handle, json_text_doc_of, schema_compile_of, share_engine,
    EngineSchema,
};

verus! {

/// A shared handle to one compiled schema, identified by the source it was
/// compiled from.
pub struct CompiledSchema {
    pub(crate) raw: EngineSchema,
    pub(crate) source: Ghost<JsonV>,
}

impl View for CompiledSchema {
    type V = JsonV;

    closed spec fn view(&self) -> JsonV {
        self.source@
    }
}

impl CompiledSchema {
    /// Another handle to the same compiled schema.
    pub fn share(&self) -> (r: CompiledSchema)
        ensures
            r == *self,
    {
        CompiledSchema { raw: share_engine(&self.raw), source: self.source }
    }

    /// Whether two handles share one compiled schema. Relies on Arc::ptr_eq.
    pub fn same_handle(&self, other: &CompiledSchema) -> bool {
        engine_same_handle(&self.raw, &other.raw)
    }
}

/// Compiles a schema; on success the result's identity is the given source.
pub(crate) fn compile_schema(v: &JsonValue) -> (r: Result<CompiledSchema, String>)
    ensures
        match r {
            Ok(s) => s@ == v@ && schema_compile_of(v@) is Ok,
            Err(e) => schema_compile_of(v@) == Err::<(), Seq<char>>(e@),
        },
{
    match compile_validator(v) {
        Ok(raw) => Ok(CompiledSchema { raw, source: Ghost(v@) }),
        Err(e) => Err(e),
    }
}

/// The outcome of reading a file, handed in by the caller.
pub enum FileOutcome {
    /// The file's text.
    Contents(String),
    /// The file does not exist.
    NotFound,
    /// Another read failure, with its message.
    Unreadable(String),
}

/// The first cache entry under `path`.
pub open spec fn cache_first(entries: Seq<(String, CompiledSchema)>, path: Seq<char>) -> Option<
    CompiledSchema,
>
    decreases entries.len(),
{
    if entries.len() == 0 {
        None
    } else if entries[0].0@ == path {
        Some(entries[0].1)
    } else {
        cache_first(entries.drop_first(), path)
    }
}

proof fn lemma_cache_first_at(entries: Seq<(String, CompiledSchema)>, path: Seq<char>, at: int)
    requires
        0 <= at < entries.len(),
        entries[at].0@ == path,
        forall|j: int| 0 <= j < at ==> (#[trigger] entries[j]).0@ != path,
    ensures
        cache_first(entries, path) == Some(entries[at].1),
    decreases at,
{
    if at > 0 {
        lemma_cache_first_at(entries.drop_first(), path, at - 1);
    }
}

proof fn lemma_cache_first_none(entries: Seq<(String, CompiledSchema)>, path: Seq<char>)
    requires
        forall|j: int| 0 <= j < entries.len() ==> (#[trigger] entries[j]).0@ != path,
    ensures
        cache_first(entries, path) is None,
    decreases entries.len(),
{
    if entries.len() > 0 {
        lemma_cache_first_none(entries.drop_first(), path);
    }
}

/// A content-keyed cache of compiled schemas: one entry per path, grown on
/// first use, never invalidated.
pub struct SchemaCache {
    pub cache: Vec<(String, CompiledSchema)>,
}

impl SchemaCache {
    pub fn new() -> (r: Self)
        ensures
            r.cache@.len() == 0,
    {
        SchemaCache { cache: Vec::new() }
    }

    /// The schema cached under `path`, as a shared handle, where one is filed.
    pub fn lookup(&self, path: &str) -> (r: Option<CompiledSchema>)
        ensures
            match r {
                Some(s) => cache_first(self.cache@, path@) == Some(s),
                None => cache_first(self.cache@, path@) is None,
            },
    {
        let ghost entries = self.cache@;
        let path_owned = path.to_owned();
        let mut i: usize = 0;
        while i < self.cache.len()
            invariant
                i <= self.cache.len(),
                entries == self.cache@,
                path_owned@ == path@,
                forall|j: int| 0 <= j < i ==> (#[trigger] entries[j]).0@ != path@,
            decreases self.cache.len() - i,
        {
            if self.cache[i].0 == path_owned {
                proof {
                    lemma_cache_first_at(entries, path@, i as int);
                }
                return Some(self.cache[i].1.share());
            }
            i = i + 1;
        }
        proof {
            lemma_cache_first_none(entries, path@);
        }
        None
    }

    /// Returns the schema cached under `path`, or loads it from the given file
    /// read: parse, compile, insert, in that order, each failure mapped to its
    /// error. A hit returns the stored handle and consults nothing else.
    pub fn load(&mut self, path: &str, read: FileOutcome) -> (r: Result<CompiledSchema, Error>)
        ensures
            match r {
                Ok(s) => match cache_first(old(self).cache@, path@) {
                    Some(p) => s == p && final(self).cache@ == old(self).cache@,
                    None => {
                        &&& read is Contents
                        &&& json_text_doc_of(read->Contents_0@) is Ok
                        &&& s@ == json_text_doc_of(read->Contents_0@)->Ok_0
                        &&& schema_compile_of(s@) is Ok
                        &&& final(self).cache@.len() == old(self).cache@.len() + 1
                        &&& final(self).cache@.subrange(0, old(self).cache@.len() as int) == old(
                            self,
                        ).cache@
                        &&& final(self).cache@.last().0@ == path@
                        &&& final(self).cache@.last().1 == s
                    },
                },
                Err(e) => {
                    &&& final(self).cache@ == old(self).cache@
                    &&& cache_first(old(self).cache@, path@) is None
                    &&& match read {
                        FileOutcome::NotFound => e@ == ErrorV::SchemaNotFound { path: path@ },
                        FileOutcome::Unreadable(m) => e@ == ErrorV::Io { message: m@ },
                        FileOutcome::Contents(c) => match json_text_doc_of(c@) {
                            Err(pe) => e@ == ErrorV::InvalidSchemaJson {
                                path: path@,
                                message: pe,
                            },
                            Ok(doc) => schema_compile_of(doc) is Err && e@
                                == ErrorV::InvalidSchemaSyntax {
                                path: path@,
                                message: schema_compile_of(doc)->Err_0,
                            },
                        },
                    }
                },
            },
    {
        let ghost entries = self.cache@;
        let path_owned = path.to_owned();
        let mut i: usize = 0;
        while i < self.cache.len()
            invariant
                i <= self.cache.len(),
                entries == self.cache@,
                path_owned@ == path@,
                forall|j: int| 0 <= j < i ==> (#[trigger] entries[j]).0@ != path@,
            decreases self.cache.len() - i,
        {
            if self.cache[i].0 == path_owned {
                proof {
                    lemma_cache_first_at(entries, path@, i as int);
                }
                return Ok(self.cache[i].1.share());
            }
            i = i + 1;
        }
        proof {
            lemma_cache_first_none(entries, path@);
        }
        let contents = match read {
            FileOutcome::Contents(c) => c,
            FileOutcome::NotFound => {
                return Err(Error::SchemaNotFound { path: path_owned });
            },
            FileOutcome::Unreadable(m) => {
                return Err(Error::Io { message: m });
            },
        };
        let value = match crate::trusted::parse_json_str(contents.as_str()) {
            Ok(v) => v,
            Err(e) => {
                return Err(Error::InvalidSchemaJson { path: path_owned, message: e });
            },
        };
        let compiled = match compile_schema(&value) {
            Ok(s) => s,
            Err(e) => {
                return Err(Error::InvalidSchemaSyntax { path: path_owned, message: e });
            },
        };
        let handle = compiled.share();
        self.cache.push((path_owned, compiled));
        proof {
            assert(self.cache@.subrange(0, entries.len() as int) =~= entries);
        }
        Ok(handle)
    }
}

impl Default for SchemaCache {
    fn default() -> (r: Self)
        ensures
            r.cache@.len() == 0,
    {
        SchemaCache::new()
    }
}

/// Loading a schema again finds the handle the first load filed: a schema
/// stored under a fresh path is what that path then looks up, so two loads of
/// one path share one compiled schema.
pub proof fn law_schema_cache_round_trip(
    entries: Seq<(String, CompiledSchema)>,
    path: Seq<char>,
    entry: (String, CompiledSchema),
)
    requires
        cache_first(entries, path) is None,
        entry.0@ == path,
    ensures
        cache_first(entries.push(entry), path) == Some(entry.1),
    decreases entries.len(),
{
    if entries.len() == 0 {
        assert(entries.push(entry)[0] == entry);
    } else {
        law_schema_cache_round_trip(entries.drop_first(), path, entry);
        assert(entries.push(entry).drop_first() =~= entries.drop_first().push(entry));
    }
}

} // verus!