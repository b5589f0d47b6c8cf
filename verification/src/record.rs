//! The parsed data: one cookie record, and the jar that collects records in
//! source order.

use vstd::prelude::*;
use vstd::string::StringExecFns;

verus! {

/// Spec-level picture of one cookie: every field as a plain mathematical
/// value. `expiration` is `None` for a session cookie, `Some(t)` for an
/// absolute expiry at Unix time `t` (seconds).
pub ghost struct SpecRecord {
    pub domain: Seq<char>,
    pub path: Seq<char>,
    pub secure: bool,
    pub http_only: bool,
    pub expiration: Option<int>,
    pub name: Seq<char>,
    pub value: Seq<char>,
}

/// One parsed cookie. `http_only` comes from the `#HttpOnly_` line marker;
/// `expiration` is `None` when the source's expiration field was `0`
/// (a session cookie), otherwise the field's value as a Unix timestamp.
#[derive(Debug)]
pub struct CookieRecord {
    pub domain: String,
    pub path: String,
    pub secure: bool,
    pub http_only: bool,
    pub expiration: Option<i64>,
    pub name: String,
    pub value: String,
}

impl View for CookieRecord {
    type V = SpecRecord;

    open spec fn view(&self) -> SpecRecord {
        SpecRecord {
            domain: self.domain@,
            path: self.path@,
            secure: self.secure,
            http_only: self.http_only,
            expiration: match self.expiration {
                Some(t) => Some(t as int),
                None => None,
            },
            name: self.name@,
            value: self.value@,
        }
    }
}

/// The first record in `s` whose name is `name`, if any.
pub open spec fn spec_lookup(s: Seq<SpecRecord>, name: Seq<char>) -> Option<SpecRecord>
    decreases s.len(),
{
    if s.len() == 0 {
        None
    } else if s[0].name == name {
        Some(s[0])
    } else {
        spec_lookup(s.drop_first(), name)
    }
}

/// An ordered collection of [`CookieRecord`]s: records are appended in the
/// order their lines appear, nothing is deduplicated or overwritten, and
/// lookup by name returns the first record inserted under that name.
#[derive(Debug)]
pub struct CookieJar {
    records: Vec<CookieRecord>,
}

impl View for CookieJar {
    type V = Seq<SpecRecord>;

    closed spec fn view(&self) -> Seq<SpecRecord> {
        self.records@.map_values(|r: CookieRecord| r@)
    }
}

impl CookieJar {
    /// An empty jar.
    pub fn new() -> (r: Self)
        ensures
            r@ =~= Seq::<SpecRecord>::empty(),
    {
        CookieJar { records: Vec::new() }
    }

    /// Appends `rec`; every record already present keeps its place.
    pub fn add(&mut self, rec: CookieRecord)
        ensures
            final (self)@ =~= old(self)@.push(rec@),
    {
        self.records.push(rec);
    }

    /// How many records the jar holds.
    pub fn len(&self) -> (r: usize)
        ensures
            r == self@.len(),
    {
        self.records.len()
    }

    /// The record at position `i`, in insertion order.
    pub fn get_index(&self, i: usize) -> (r: &CookieRecord)
        requires
            i < self@.len(),
        ensures
            r@ == self@[i as int],
    {
        &self.records[i]
    }

    /// The first record inserted under `name`, or `None` if the jar has none.
    pub fn get(&self, name: &str) -> (r: Option<&CookieRecord>)
        ensures
            match r {
                Some(c) => spec_lookup(self@, name@) == Some(c@),
                None => spec_lookup(self@, name@) is None,
            },
    {
        let n = String::from_str(name);
        proof {
            assert(self@.subrange(0, self@.len() as int) =~= self@);
        }
        let mut i: usize = 0;
        while i < self.records.len()
            invariant
                i <= self.records.len(),
                n@ == name@,
                spec_lookup(self@, name@) == spec_lookup(
                    self@.subrange(i as int, self@.len() as int),
                    name@,
                ),
            decreases self.records.len() - i,
        {
            proof {
                let rest = self@.subrange(i as int, self@.len() as int);
                assert(rest[0] == self@[i as int]);
                assert(rest.drop_first() =~= self@.subrange(i + 1, self@.len() as int));
            }
            if self.records[i].name == n {
                return Some(&self.records[i]);
            }
            i = i + 1;
        }
        proof {
            assert(self@.subrange(i as int, self@.len() as int).len() == 0);
        }
        None
    }
}

} // verus!
