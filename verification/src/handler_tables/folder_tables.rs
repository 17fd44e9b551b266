//! The tables of a folder, by name.

use crate::handler_tables::table::last_index;
use crate::text::{chars_of, is_word, slice, string_of};
use vstd::prelude::*;

verus! {

/// The tables of a folder: the name of each, with the path of its file.
pub struct FolderTables {
    data: Vec<(String, String)>,
}

/// The name of the table that a file holds: the file's name up to its last
/// full stop. A file without a full stop in its name holds no table.
pub open spec fn table_of_file(file_name: Seq<char>) -> Option<Seq<char>> {
    match last_index(file_name, '.') {
        Some(at) => Some(file_name.subrange(0, at)),
        None => None,
    }
}

/// The tables of a listing of files, each given by its name and its path:
/// one entry for every file that holds a table, in the order of the listing.
pub open spec fn tables_of(listing: Seq<(Seq<char>, Seq<char>)>) -> Seq<(Seq<char>, Seq<char>)>
    decreases listing.len(),
{
    if listing.len() == 0 {
        Seq::empty()
    } else {
        match table_of_file(listing.last().0) {
            Some(name) => tables_of(listing.drop_last()).push((name, listing.last().1)),
            None => tables_of(listing.drop_last()),
        }
    }
}

/// The path of the last of `tables` with the name `name`.
pub open spec fn path_of(tables: Seq<(Seq<char>, Seq<char>)>, name: Seq<char>) -> Option<
    Seq<char>,
>
    decreases tables.len(),
{
    if tables.len() == 0 {
        None
    } else if tables.last().0 == name {
        Some(tables.last().1)
    } else {
        path_of(tables.drop_last(), name)
    }
}

/// A listing with the texts of its names and paths.
pub open spec fn listing_of(listing: Seq<(String, String)>) -> Seq<(Seq<char>, Seq<char>)> {
    Seq::new(listing.len(), |i: int| (listing[i].0@, listing[i].1@))
}

/// The name of the table that a file holds.
pub fn table_name_in(file_name: &Vec<char>) -> (r: Option<Vec<char>>)
    ensures
        match r {
            Some(name) => table_of_file(file_name@) == Some(name@),
            None => table_of_file(file_name@) is None,
        },
{
    let mut at: usize = file_name.len();
    assert(file_name@.take(at as int) == file_name@);
    while at > 0 && file_name[at - 1] != '.'
        invariant
            at <= file_name.len(),
            last_index(file_name@, '.') == last_index(file_name@.take(at as int), '.'),
        decreases at,
    {
        assert(file_name@.take(at as int).drop_last() == file_name@.take(at - 1));
        at -= 1;
    }
    if at == 0 {
        None
    } else {
        assert(file_name@.take(at as int).last() == '.');
        Some(slice(file_name, 0, at - 1))
    }
}

impl FolderTables {
    /// The tables that the folder holds.
    pub closed spec fn tables(&self) -> Seq<(Seq<char>, Seq<char>)> {
        listing_of(self.data@)
    }

    /// The tables of a folder from the listing of its files, each given by
    /// its name and its path. Where two files hold a table of the same name,
    /// the later one in the listing counts.
    pub fn from_listing(listing: Vec<(String, String)>) -> (folder: FolderTables)
        ensures
            folder.tables() == tables_of(listing_of(listing@)),
    {
        let ghost all = listing_of(listing@);
        let mut data: Vec<(String, String)> = Vec::new();
        let mut i: usize = 0;
        assert(listing_of(data@) =~= Seq::empty());
        while i < listing.len()
            invariant
                i <= listing.len(),
                all == listing_of(listing@),
                listing_of(data@) == tables_of(all.take(i as int)),
            decreases listing.len() - i,
        {
            assert(all.take(i + 1).drop_last() == all.take(i as int));
            assert(all.take(i + 1).last() == (listing[i as int].0@, listing[i as int].1@));
            match table_name_in(&chars_of(listing[i].0.as_str())) {
                Some(name) => {
                    let ghost before = listing_of(data@);
                    data.push((string_of(&name), listing[i].1.clone()));
                    assert(listing_of(data@) =~= before.push((name@, listing[i as int].1@)));
                },
                None => {},
            }
            i += 1;
        }
        assert(all.take(listing.len() as int) == all);
        FolderTables { data }
    }

    /// The path of the table with the name `key`, if the folder holds one.
    pub fn get_path(&self, key: &str) -> (path: Option<String>)
        ensures
            match path {
                Some(p) => path_of(self.tables(), key@) == Some(p@),
                None => path_of(self.tables(), key@) is None,
            },
    {
        let name = chars_of(key);
        let ghost all = listing_of(self.data@);
        let mut at: usize = self.data.len();
        assert(all.take(at as int) == all);
        while at > 0
            invariant
                at <= self.data.len(),
                all == listing_of(self.data@),
                name@ == key@,
                path_of(all, key@) == path_of(all.take(at as int), key@),
            decreases at,
        {
            assert(all.take(at as int).drop_last() == all.take(at - 1));
            assert(all.take(at as int).last() == (self.data[at - 1].0@, self.data[at - 1].1@));
            if is_word(&name, self.data[at - 1].0.as_str()) {
                return Some(self.data[at - 1].1.clone());
            }
            at -= 1;
        }
        None
    }
}

} // verus!
