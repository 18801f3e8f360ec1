//! Rows of the relational table and their correspondence to the collection.
//!
//! A row carries the name, the content and the timestamp as text.  Encoding
//! a collection yields one row per entry; decoding parses each timestamp and
//! rebuilds the collection, and the round trip is proved to restore the
//! collection's map exactly.

use vstd::prelude::*;
use vstd::map::*;
use crate::store::{Entry, Snippet, SnippetMap, SnippetView, map_of_entries};
use crate::timestamp::{fmt_rfc3339, parse_rfc3339_spec, render_rfc3339, parse_rfc3339,
    lemma_parse_of_fmt};
use crate::chars::{chars_of, string_from_chars};
use crate::error::StoreError;

verus! {

/// One row of the table: `(name, content, created_at)`.
#[derive(Debug, Clone)]
pub struct Row {
    pub name: String,
    pub content: String,
    pub created_at: String,
}

/// Every row's timestamp text is canonical.
pub open spec fn rows_all_parse(s: Seq<Row>) -> bool {
    forall|i: int| 0 <= i < s.len() ==> parse_rfc3339_spec(s[i].created_at@) is Some
}

/// The map spelled by a sequence of rows, later rows winning.
pub open spec fn map_of_rows(s: Seq<Row>) -> Map<Seq<char>, SnippetView>
    decreases s.len(),
{
    if s.len() == 0 {
        Map::empty()
    } else {
        map_of_rows(s.drop_last()).insert(
            s.last().name@,
            SnippetView {
                content: s.last().content@,
                created_at: parse_rfc3339_spec(s.last().created_at@)->Some_0,
            },
        )
    }
}

/// A sequence of rows renders a sequence of entries faithfully.
pub open spec fn rows_match_entries(rows: Seq<Row>, entries: Seq<Entry>) -> bool {
    &&& rows.len() == entries.len()
    &&& forall|i: int|
        0 <= i < rows.len() ==> rows[i].name@ == entries[i].name@ && rows[i].content@
            == entries[i].snippet.content@ && rows[i].created_at@ == fmt_rfc3339(
            entries[i].snippet.created_at,
        )
}

/// Encodes the collection as rows, one per entry, in order.
pub fn to_rows(m: &SnippetMap) -> (r: Vec<Row>)
    requires
        m.wf(),
    ensures
        rows_match_entries(r@, m.entries@),
{
    let n = m.entries.len();
    let mut r: Vec<Row> = Vec::new();
    let mut i: usize = 0;
    while i < n
        invariant
            m.wf(),
            n == m.entries@.len(),
            i <= n,
            r@.len() == i,
            forall|j: int|
                0 <= j < i ==> r@[j].name@ == m.entries@[j].name@ && r@[j].content@
                    == m.entries@[j].snippet.content@ && r@[j].created_at@ == fmt_rfc3339(
                    m.entries@[j].snippet.created_at,
                ),
        decreases n - i,
    {
        let e = &m.entries[i];
        let ts = render_rfc3339(&e.snippet.created_at);
        r.push(
            Row {
                name: e.name.clone(),
                content: e.snippet.content.clone(),
                created_at: string_from_chars(&ts),
            },
        );
        i = i + 1;
    }
    r
}

/// Decodes rows into a collection; every timestamp text must parse, and a
/// failure on any row fails the whole load.
pub fn from_rows(rows: &Vec<Row>) -> (r: Result<SnippetMap, StoreError>)
    ensures
        match r {
            Ok(m) => m.wf() && rows_all_parse(rows@) && m.as_map() == map_of_rows(rows@),
            Err(e) => e == StoreError::StorageReadError && !rows_all_parse(rows@),
        },
{
    let n = rows.len();
    let mut m = SnippetMap::new();
    let mut i: usize = 0;
    while i < n
        invariant
            n == rows@.len(),
            i <= n,
            m.wf(),
            rows_all_parse(rows@.take(i as int)),
            m.as_map() == map_of_rows(rows@.take(i as int)),
        decreases n - i,
    {
        let row = &rows[i];
        let tsv = chars_of(row.created_at.as_str());
        match parse_rfc3339(&tsv) {
            Some(t) => {
                proof {
                    crate::timestamp::lemma_fmt_of_parse(tsv@);
                }
                m.insert(row.name.clone(), Snippet { content: row.content.clone(), created_at: t });
                i = i + 1;
                proof {
                    assert(rows@.take(i as int).drop_last() =~= rows@.take(i - 1));
                    assert(rows@.take(i as int).last() == rows@[i - 1]);
                    assert forall|j: int|
                        0 <= j < i implies parse_rfc3339_spec(
                        #[trigger] rows@.take(i as int)[j].created_at@,
                    ) is Some by {
                        if j < i - 1 {
                            assert(rows@.take(i - 1)[j] == rows@.take(i as int)[j]);
                        }
                    }
                }
            },
            None => {
                proof {
                    assert(rows@[i as int].created_at@ == tsv@);
                }
                return Err(StoreError::StorageReadError);
            },
        }
    }
    proof {
        assert(rows@.take(n as int) =~= rows@);
    }
    Ok(m)
}

/// The relational round trip: rows that encode a well-formed collection all
/// parse, and spell exactly the collection's map back.
#[verifier::rlimit(100)]
pub proof fn lemma_rows_round_trip(rows: Seq<Row>, entries: Seq<Entry>)
    requires
        rows_match_entries(rows, entries),
        forall|i: int| 0 <= i < entries.len() ==> (#[trigger] entries[i].snippet).wf(),
    ensures
        rows_all_parse(rows),
        map_of_rows(rows) == map_of_entries(entries),
    decreases rows.len(),
{
    if rows.len() > 0 {
        assert(rows.drop_last().len() == entries.drop_last().len());
        assert forall|i: int|
            0 <= i < rows.drop_last().len() implies rows.drop_last()[i].name@
            == entries.drop_last()[i].name@ && rows.drop_last()[i].content@
            == entries.drop_last()[i].snippet.content@ && rows.drop_last()[i].created_at@
            == fmt_rfc3339(entries.drop_last()[i].snippet.created_at) by {
            assert(rows.drop_last()[i] == rows[i]);
            assert(entries.drop_last()[i] == entries[i]);
        }
        assert forall|i: int|
            0 <= i < entries.drop_last().len() implies (#[trigger] entries.drop_last()[i].snippet).wf() by {
            assert(entries.drop_last()[i] == entries[i]);
        }
        lemma_rows_round_trip(rows.drop_last(), entries.drop_last());
        let e = entries.last();
        lemma_parse_of_fmt(e.snippet.created_at);
        assert(rows.last().created_at@ == fmt_rfc3339(e.snippet.created_at));
        assert(parse_rfc3339_spec(rows.last().created_at@) == Some(e.snippet.created_at));
        assert(SnippetView {
            content: rows.last().content@,
            created_at: parse_rfc3339_spec(rows.last().created_at@)->Some_0,
        } == e.snippet@);
        assert(rows.last().name@ == e.name@);
        assert(map_of_rows(rows) == map_of_rows(rows.drop_last()).insert(
            rows.last().name@,
            SnippetView {
                content: rows.last().content@,
                created_at: parse_rfc3339_spec(rows.last().created_at@)->Some_0,
            },
        ));
        assert(map_of_entries(entries) == map_of_entries(entries.drop_last()).insert(
            e.name@,
            e.snippet@,
        ));
        assert(map_of_rows(rows) == map_of_entries(entries));
        assert forall|i: int|
            0 <= i < rows.len() implies parse_rfc3339_spec(
            #[trigger] rows[i].created_at@,
        ) is Some by {
            if i < rows.len() - 1 {
                assert(rows.drop_last()[i] == rows[i]);
            }
        }
    }
}

} // verus!
