//! The storage selector: which backend a configuration string names.
//!
//! A configuration string has the shape `KIND:location`; the part before
//! the first `:` names the backend, the rest is its location.

use vstd::prelude::*;
use crate::chars::{chars_of, string_from_chars, str_eq};
use crate::error::StoreError;

verus! {

/// The backend a configuration string selects, with its location.
#[derive(Debug, Clone)]
pub enum StorageConfig {
    Json(String),
    Sqlite(String),
}

/// Index of the first `:`, or -1 when there is none.
pub open spec fn first_colon(s: Seq<char>) -> int
    decreases s.len(),
{
    if s.len() == 0 {
        -1
    } else if s[0] == ':' {
        0
    } else if first_colon(s.drop_first()) < 0 {
        -1
    } else {
        first_colon(s.drop_first()) + 1
    }
}

proof fn lemma_first_colon_at(s: Seq<char>, i: int)
    requires
        0 <= i < s.len(),
        s[i] == ':',
        forall|j: int| 0 <= j < i ==> s[j] != ':',
    ensures
        first_colon(s) == i,
    decreases i,
{
    if i > 0 {
        assert forall|j: int| 0 <= j < i - 1 implies s.drop_first()[j] != ':' by {
            assert(s.drop_first()[j] == s[j + 1]);
        }
        assert(s.drop_first()[i - 1] == s[i]);
        lemma_first_colon_at(s.drop_first(), i - 1);
    }
}

proof fn lemma_first_colon_none(s: Seq<char>)
    requires
        forall|j: int| 0 <= j < s.len() ==> s[j] != ':',
    ensures
        first_colon(s) == -1,
    decreases s.len(),
{
    if s.len() > 0 {
        assert forall|j: int| 0 <= j < s.drop_first().len() implies s.drop_first()[j] != ':' by {
            assert(s.drop_first()[j] == s[j + 1]);
        }
        lemma_first_colon_none(s.drop_first());
    }
}

/// The kind tag of a configuration string: what stands before the first `:`.
pub open spec fn config_kind(s: Seq<char>) -> Seq<char> {
    s.take(first_colon(s))
}

/// The location of a configuration string: what stands after the first `:`.
pub open spec fn config_location(s: Seq<char>) -> Seq<char> {
    s.skip(first_colon(s) + 1)
}

/// Resolves a configuration string: `JSON:` and `SQLITE:` select the two
/// backends; a string without `:`, or with any other kind tag, is refused.
pub fn parse_storage_config(s: &str) -> (r: Result<StorageConfig, StoreError>)
    ensures
        first_colon(s@) < 0 ==> r == Err::<StorageConfig, StoreError>(
            StoreError::ConfigurationError,
        ),
        first_colon(s@) >= 0 && config_kind(s@) == "JSON"@ ==> (r matches Ok(
            StorageConfig::Json(p),
        ) && p@ == config_location(s@)),
        first_colon(s@) >= 0 && config_kind(s@) == "SQLITE"@ ==> (r matches Ok(
            StorageConfig::Sqlite(p),
        ) && p@ == config_location(s@)),
        first_colon(s@) >= 0 && config_kind(s@) != "JSON"@ && config_kind(s@) != "SQLITE"@ ==> r
            == Err::<StorageConfig, StoreError>(StoreError::ConfigurationError),
{
    let v = chars_of(s);
    let n = v.len();
    let mut i: usize = 0;
    while i < n && v[i] != ':'
        invariant
            v@ == s@,
            n == v@.len(),
            i <= n,
            forall|j: int| 0 <= j < i ==> v@[j] != ':',
        decreases n - i,
    {
        i = i + 1;
    }
    if i == n {
        proof {
            lemma_first_colon_none(s@);
        }
        return Err(StoreError::ConfigurationError);
    }
    proof {
        lemma_first_colon_at(s@, i as int);
    }
    let mut kind: Vec<char> = Vec::new();
    let mut j: usize = 0;
    while j < i
        invariant
            v@ == s@,
            i < v@.len(),
            j <= i,
            kind@ == v@.take(j as int),
        decreases i - j,
    {
        kind.push(v[j]);
        j = j + 1;
        proof {
            assert(kind@ =~= v@.take(j as int));
        }
    }
    let mut loc: Vec<char> = Vec::new();
    let mut k: usize = i + 1;
    while k < n
        invariant
            v@ == s@,
            n == v@.len(),
            i < n,
            i + 1 <= k <= n,
            loc@ == v@.subrange(i + 1, k as int),
        decreases n - k,
    {
        loc.push(v[k]);
        k = k + 1;
        proof {
            assert(loc@ =~= v@.subrange(i + 1, k as int));
        }
    }
    proof {
        reveal_strlit("JSON");
        reveal_strlit("SQLITE");
        assert(kind@ == config_kind(s@));
        assert(loc@ =~= config_location(s@));
    }
    let kind_str = string_from_chars(&kind);
    let loc_str = string_from_chars(&loc);
    if str_eq(kind_str.as_str(), "JSON") {
        Ok(StorageConfig::Json(loc_str))
    } else if str_eq(kind_str.as_str(), "SQLITE") {
        Ok(StorageConfig::Sqlite(loc_str))
    } else {
        Err(StoreError::ConfigurationError)
    }
}

} // verus!
