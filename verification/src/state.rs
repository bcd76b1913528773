//! The state that a later run resumes from: the bookmarks that the tables hold.

use crate::error::SingerIcebergError;
use crate::json::{entries_model, entry_position, find_entry, parsed_json, Json, JsonModel};
use crate::table::{find_property, pairs_model, property, SINGER_BOOKMARK};
use vstd::prelude::*;

verus! {

/// The streams of `tables`, each with the properties of its table.
pub open spec fn tables_model(tables: Seq<(String, Vec<(String, String)>)>) -> Seq<
    (Seq<char>, Seq<(Seq<char>, Seq<char>)>),
> {
    tables.map_values(|t: (String, Vec<(String, String)>)| (t.0@, pairs_model(t.1@)))
}

/// The bookmarks that tables hold, each read as JSON and put under the
/// name of its stream. A table that holds none is passed over, and of the
/// tables of one stream the first that holds a bookmark counts; the later
/// ones are not read. `None` where a bookmark that counts is no JSON text.
pub open spec fn bookmarks_in(tables: Seq<(Seq<char>, Seq<(Seq<char>, Seq<char>)>)>) -> Option<
    Seq<(Seq<char>, JsonModel)>,
>
    decreases tables.len(),
{
    if tables.len() == 0 {
        Some(Seq::empty())
    } else {
        match bookmarks_in(tables.drop_last()) {
            None => None,
            Some(before) => if entry_position(before, tables.last().0) < before.len() {
                Some(before)
            } else {
                match property(tables.last().1, SINGER_BOOKMARK@) {
                    None => Some(before),
                    Some(text) => match parsed_json(text) {
                        None => None,
                        Some(bookmark) => Some(before.push((tables.last().0, bookmark))),
                    },
                }
            },
        }
    }
}

/// The state document that holds the bookmarks `bookmarks`.
pub open spec fn state_document(bookmarks: Seq<(Seq<char>, JsonModel)>) -> JsonModel {
    JsonModel::Object(
        seq![
            ("currently_syncing"@, JsonModel::Null),
            ("bookmarks"@, JsonModel::Object(bookmarks)),
        ],
    )
}

/// A bookmark among the first `n` tables that is no JSON text spoils the whole.
proof fn lemma_spoiled_stays(tables: Seq<(Seq<char>, Seq<(Seq<char>, Seq<char>)>)>, n: int)
    requires
        0 <= n <= tables.len(),
        bookmarks_in(tables.take(n)) is None,
    ensures
        bookmarks_in(tables) is None,
    decreases tables.len() - n,
{
    if n < tables.len() {
        assert(tables.take(n + 1).drop_last() == tables.take(n));
        lemma_spoiled_stays(tables, n + 1);
    } else {
        assert(tables.take(n) == tables);
    }
}

/// Builds the state document from the tables of the configured streams.
///
/// `tables` holds, for each stream, the properties of the table that the
/// stream lands in. The bookmark of a stream is the JSON that its table
/// holds as text under `singer.bookmark`.
pub fn generate_state(tables: &Vec<(String, Vec<(String, String)>)>) -> (r: Result<
    Json,
    SingerIcebergError,
>)
    ensures
        match r {
            Ok(state) => bookmarks_in(tables_model(tables@)) is Some && state@ == state_document(
                bookmarks_in(tables_model(tables@)).unwrap(),
            ),
            Err(e) => bookmarks_in(tables_model(tables@)) is None && e is Serde,
        },
{
    let ghost model = tables_model(tables@);
    let mut bookmarks: Vec<(String, Json)> = Vec::new();
    let mut i: usize = 0;
    assert(entries_model(bookmarks@) == Seq::<(Seq<char>, JsonModel)>::empty());
    while i < tables.len()
        invariant
            i <= tables@.len(),
            model == tables_model(tables@),
            bookmarks_in(model.take(i as int)) == Some(entries_model(bookmarks@)),
        decreases tables@.len() - i,
    {
        proof {
            assert(model.take(i + 1).drop_last() == model.take(i as int));
            assert(model.take(i + 1).last() == (tables@[i as int].0@, pairs_model(tables@[i as int].1@)));
        }
        if find_entry(&bookmarks, tables[i].0.as_str()).is_none() {
            match find_property(&tables[i].1, SINGER_BOOKMARK) {
                Some(text) => {
                    match Json::parse(text.as_str()) {
                        Ok(bookmark) => {
                            let ghost before = entries_model(bookmarks@);
                            let entry = (tables[i].0.clone(), bookmark);
                            proof {
                                assert(entries_model(bookmarks@.push(entry)) == before.push(
                                    (entry.0@, entry.1@),
                                ));
                            }
                            bookmarks.push(entry);
                        },
                        Err(e) => {
                            proof {
                                lemma_spoiled_stays(model, i + 1);
                            }
                            return Err(e);
                        },
                    }
                },
                None => {},
            }
        }
        i += 1;
    }
    proof {
        assert(model.take(i as int) == model);
    }
    let mut entries: Vec<(String, Json)> = Vec::new();
    entries.push((String::from_str("currently_syncing"), Json::Null));
    entries.push((String::from_str("bookmarks"), Json::Object(bookmarks)));
    proof {
        assert(entries_model(entries@) == seq![
            ("currently_syncing"@, JsonModel::Null),
            ("bookmarks"@, JsonModel::Object(entries_model(bookmarks@))),
        ]);
    }
    Ok(Json::Object(entries))
}

} // verus!
