//! The maps that matches can be played on.

use std::collections::HashSet;

use vstd::prelude::*;
use vstd::utf8::{
    decode_utf8, encode_utf8, encode_utf8_decode_utf8, encode_utf8_first_scalar,
    encode_utf8_valid_utf8, is_ascii_chars_encode_utf8, valid_utf8,
};

use crate::lobby::{PwMapData, PwMapDataView};
use crate::proposals::PwMaps;
use crate::table::Table;
use crate::text::{file_extension, file_stem, is_extension_dot, lemma_extension, text_from_utf8};

verus! {

/// The extension of a file that holds a map.
pub const MAP_EXTENSION: &'static str = "json";

/// The byte before an extension: a dot.
pub const DOT: u8 = 0x2e;

/// A map as it was read: the name of its file without the extension, and for each planet the player
/// who owns it at the start.
#[derive(Debug)]
pub struct MapFile {
    pub name: String,
    pub owners: Vec<Option<usize>>,
}

pub struct MapFileView {
    pub name: Seq<char>,
    pub owners: Seq<Option<usize>>,
}

impl View for MapFile {
    type V = MapFileView;

    open spec fn view(&self) -> MapFileView {
        MapFileView { name: self.name@, owners: self.owners@ }
    }
}

/// What is found in the directory of maps.
#[derive(Debug)]
pub struct DirectoryEntry {
    pub is_file: bool,
    /// The bytes of its name.
    pub file_name: Vec<u8>,
}

/// The extension of a file that holds a map, as bytes.
pub open spec fn map_extension() -> Seq<u8> {
    encode_utf8(MAP_EXTENSION@)
}

/// Where the dot before the extension of a file name stands.
fn extension_dot(name: &Vec<u8>) -> (dot: Option<usize>)
    ensures
        match dot {
            Some(at) => is_extension_dot(name@, DOT, at as int),
            None => forall|at: int| !is_extension_dot(name@, DOT, at),
        },
{
    let n = name.len();
    let mut i: usize = n;
    while i > 1
        invariant
            n == name@.len(),
            i <= n,
            forall|j: int| i <= j < n ==> name@[j] != DOT,
        decreases i,
    {
        i -= 1;
        if name[i] == DOT {
            return Some(i);
        }
    }
    None
}

/// Whether an entry of the directory of maps holds a map: it does if it is a file and is named so.
pub fn is_map_file(entry: &DirectoryEntry) -> (holds_map: bool)
    ensures
        holds_map == (entry.is_file && file_extension(entry.file_name@, DOT) == Some(
            map_extension(),
        )),
{
    if !entry.is_file {
        return false;
    }
    let dot = match extension_dot(&entry.file_name) {
        Some(dot) => dot,
        None => return false,
    };
    let ghost name = entry.file_name@;
    let ghost extension = name.skip(dot + 1);
    assert(file_extension(name, DOT) == Some(extension)) by {
        let at = choose|at: int| is_extension_dot(name, DOT, at);
        assert(is_extension_dot(name, DOT, at));
        assert(at == dot);
    }
    let expected = MAP_EXTENSION.as_bytes();
    let len = expected.len();
    let n = entry.file_name.len();
    if n - dot - 1 != len {
        assert(extension.len() != map_extension().len());
        return false;
    }
    let mut i: usize = 0;
    while i < len
        invariant
            len == expected@.len(),
            expected@ == map_extension(),
            name == entry.file_name@,
            n == name.len(),
            dot < n,
            n - dot - 1 == len,
            extension == name.skip(dot + 1),
            i <= len,
            forall|j: int| 0 <= j < i ==> extension[j] == expected@[j],
        decreases len - i,
    {
        if entry.file_name[dot + 1 + i] != expected[i] {
            assert(extension[i as int] != expected@[i as int]);
            return false;
        }
        i += 1;
    }
    assert(extension =~= map_extension());
    true
}

/// The name of the map in a file: that of the file without its extension. A file whose name is not valid
/// UTF-8 has none.
pub open spec fn map_name_of(file_name: Seq<u8>) -> Option<Seq<char>> {
    let stem = file_stem(file_name, DOT);
    if valid_utf8(stem) {
        Some(decode_utf8(stem))
    } else {
        None
    }
}

/// The name of the map in a file.
pub fn map_name(entry: &DirectoryEntry) -> (name: Option<String>)
    ensures
        match name {
            Some(text) => map_name_of(entry.file_name@) == Some(text@),
            None => map_name_of(entry.file_name@) is None,
        },
{
    let end = match extension_dot(&entry.file_name) {
        Some(dot) => dot,
        None => entry.file_name.len(),
    };
    let ghost stem = file_stem(entry.file_name@, DOT);
    assert(stem =~= entry.file_name@.take(end as int)) by {
        let name = entry.file_name@;
        if exists|at: int| is_extension_dot(name, DOT, at) {
            let at = choose|at: int| is_extension_dot(name, DOT, at);
            assert(is_extension_dot(name, DOT, at));
            assert(at == end);
        }
    }
    let mut bytes: Vec<u8> = Vec::new();
    let mut i: usize = 0;
    while i < end
        invariant
            i <= end <= entry.file_name@.len(),
            bytes@ == entry.file_name@.take(i as int),
        decreases end - i,
    {
        bytes.push(entry.file_name[i]);
        i += 1;
        assert(bytes@ =~= entry.file_name@.take(i as int));
    }
    text_from_utf8(bytes)
}

/// A map is kept in the file that has its name and the extension of maps, whatever the name is.
pub proof fn law_map_file_name(name: Seq<char>)
    requires
        name.len() > 0,
    ensures
        ({
            let file_name = encode_utf8(name).push(DOT) + map_extension();
            &&& file_extension(file_name, DOT) == Some(map_extension())
            &&& map_name_of(file_name) == Some(name)
        }),
{
    reveal_strlit("json");
    let extension = map_extension();
    is_ascii_chars_encode_utf8(MAP_EXTENSION@);
    assert forall|i: int| 0 <= i < extension.len() implies extension[i] != DOT by {
        assert(MAP_EXTENSION@[i] as u8 == extension[i]);
    }
    encode_utf8_valid_utf8(name);
    encode_utf8_decode_utf8(name);
    encode_utf8_first_scalar(name);
    assert(encode_utf8(name).len() > 0);
    lemma_extension(encode_utf8(name), DOT, extension);
}

/// The players who own a planet.
pub open spec fn owner_set(owners: Seq<Option<usize>>) -> Set<usize> {
    owners.filter(|owner: Option<usize>| owner is Some).map_values(
        |owner: Option<usize>| owner->0,
    ).to_set()
}

/// What is to be known of a map: as many can play on it as own a planet at the start.
pub open spec fn map_data(map: MapFileView) -> PwMapDataView {
    PwMapDataView { name: map.name, max_players: owner_set(map.owners).len() as usize }
}

/// One planet more: its owner, if it has one, is one of the owners.
proof fn lemma_next_owner(owners: Seq<Option<usize>>, i: int)
    requires
        0 <= i < owners.len(),
    ensures
        owner_set(owners.take(i + 1)) == match owners[i] {
            Some(owner) => owner_set(owners.take(i)).insert(owner),
            None => owner_set(owners.take(i)),
        },
{
    let owned = |owner: Option<usize>| owner is Some;
    let number = |owner: Option<usize>| owner->0;
    let earlier = owners.take(i);
    let now = owners.take(i + 1);
    reveal(Seq::filter);
    assert(now.drop_last() =~= earlier);
    let a = earlier.filter(owned).map_values(number);
    let b = now.filter(owned).map_values(number);
    match owners[i] {
        Some(owner) => {
            assert(b =~= a.push(owner));
            assert forall|x: usize| b.to_set().contains(x) == a.to_set().insert(owner).contains(x) by {
                if a.contains(x) {
                    let j = choose|j: int| 0 <= j < a.len() && a[j] == x;
                    assert(b[j] == x);
                }
                assert(b[a.len() as int] == owner);
                if b.contains(x) {
                    let j = choose|j: int| 0 <= j < b.len() && b[j] == x;
                    if j < a.len() {
                        assert(a[j] == x);
                    }
                }
            }
            assert(b.to_set() =~= a.to_set().insert(owner));
        },
        None => {
            assert(b =~= a);
        },
    }
}

/// Finds out what is to be known of a map.
pub fn get_map_data(map: &MapFile) -> (data: PwMapData)
    ensures
        data@ == map_data(map@),
        data.max_players == owner_set(map@.owners).len(),
{
    broadcast use vstd::std_specs::hash::group_hash_axioms;

    let mut players: HashSet<usize> = HashSet::new();
    let n = map.owners.len();
    let mut i: usize = 0;
    proof {
        reveal(Seq::filter);
        assert(players@ =~= owner_set(map@.owners.take(0)));
    }
    while i < n
        invariant
            n == map@.owners.len(),
            i <= n,
            players@ == owner_set(map@.owners.take(i as int)),
        decreases n - i,
    {
        proof {
            lemma_next_owner(map@.owners, i as int);
        }
        if let Some(owner) = map.owners[i] {
            players.insert(owner);
        }
        i += 1;
    }
    assert(map@.owners.take(n as int) =~= map@.owners);
    PwMapData { name: map.name.clone(), max_players: players.len() }
}

/// What a list of maps says.
pub open spec fn map_views(files: Seq<MapFile>) -> Seq<MapFileView> {
    files.map_values(|file: MapFile| file@)
}

/// The maps by name. Of maps with one name the last counts.
pub open spec fn maps_by_name(files: Seq<MapFileView>) -> Map<Seq<char>, PwMapDataView>
    decreases files.len(),
{
    if files.len() == 0 {
        Map::empty()
    } else {
        maps_by_name(files.drop_last()).insert(files.last().name, map_data(files.last()))
    }
}

/// Collects what is to be known of all maps.
pub fn build_map_index(files: &Vec<MapFile>) -> (maps: PwMaps)
    ensures
        maps@ == maps_by_name(map_views(files@)),
{
    let mut maps: PwMaps = Table::new();
    let ghost all = map_views(files@);
    let n = files.len();
    let mut i: usize = 0;
    assert(all.take(0) =~= Seq::<MapFileView>::empty());
    while i < n
        invariant
            all == map_views(files@),
            n == files@.len(),
            i <= n,
            maps@ == maps_by_name(all.take(i as int)),
        decreases n - i,
    {
        let data = get_map_data(&files[i]);
        maps.insert(data.name.clone(), data);
        i += 1;
        assert(all.take(i as int).drop_last() =~= all.take(i - 1));
    }
    assert(all.take(n as int) =~= all);
    maps
}

/// Every map is listed under its own name.
pub proof fn law_maps_under_their_names(files: Seq<MapFileView>)
    ensures
        forall|name: Seq<char>| #[trigger]
            maps_by_name(files).contains_key(name) ==> maps_by_name(files)[name].name == name,
    decreases files.len(),
{
    if files.len() > 0 {
        let earlier = files.drop_last();
        law_maps_under_their_names(earlier);
        assert forall|name: Seq<char>| #[trigger]
            maps_by_name(files).contains_key(name) implies maps_by_name(files)[name].name == name by {
            if name != files.last().name {
                assert(maps_by_name(earlier).contains_key(name));
            }
        }
    }
}

/// A player owns a planet of a map exactly if some planet is theirs.
pub proof fn law_owners(owners: Seq<Option<usize>>, player: usize)
    ensures
        owner_set(owners).contains(player) <==> exists|i: int|
            0 <= i < owners.len() && #[trigger] owners[i] == Some(player),
    decreases owners.len(),
{
    if owners.len() == 0 {
        reveal(Seq::filter);
        assert(owner_set(owners) =~= Set::empty());
    } else {
        let n = owners.len() - 1;
        let earlier = owners.drop_last();
        law_owners(earlier, player);
        lemma_next_owner(owners, n);
        assert(owners.take(n) =~= earlier);
        assert(owners.take(n + 1) =~= owners);
        if exists|i: int| 0 <= i < owners.len() && #[trigger] owners[i] == Some(player) {
            let i = choose|i: int| 0 <= i < owners.len() && #[trigger] owners[i] == Some(player);
            if i < n {
                assert(earlier[i] == Some(player));
            }
        }
        if exists|i: int| 0 <= i < earlier.len() && #[trigger] earlier[i] == Some(player) {
            let i = choose|i: int| 0 <= i < earlier.len() && #[trigger] earlier[i] == Some(player);
            assert(owners[i] == Some(player));
        }
        if owners[n] == Some(player) {
            assert(owner_set(owners).contains(player));
        }
    }
}

/// As many can play on a map as own a planet of it: if `players` lists everyone who owns one, and nobody
/// twice or without a planet, it is as long as that.
pub proof fn law_max_players(map: MapFileView, players: Seq<usize>)
    requires
        players.no_duplicates(),
        players.len() <= usize::MAX,
        forall|player: usize| #[trigger]
            players.contains(player) <==> exists|i: int|
                0 <= i < map.owners.len() && #[trigger] map.owners[i] == Some(player),
    ensures
        map_data(map).name == map.name,
        map_data(map).max_players == players.len(),
{
    assert forall|player: usize| players.to_set().contains(player) == owner_set(
        map.owners,
    ).contains(player) by {
        law_owners(map.owners, player);
        assert(players.contains(player) == players.to_set().contains(player));
    }
    assert(players.to_set() =~= owner_set(map.owners));
    players.unique_seq_to_set();
}

/// The extension of a map's file is `json`, byte by byte.
pub proof fn law_map_extension()
    ensures
        map_extension() == seq![0x6au8, 0x73u8, 0x6fu8, 0x6eu8],
{
    reveal_strlit("json");
    is_ascii_chars_encode_utf8(MAP_EXTENSION@);
    assert(MAP_EXTENSION@.len() == 4);
    assert('j' as u8 == 0x6au8 && 's' as u8 == 0x73u8 && 'o' as u8 == 0x6fu8 && 'n' as u8 == 0x6eu8);
    assert(map_extension()[0] == MAP_EXTENSION@[0] as u8);
    assert(map_extension()[1] == MAP_EXTENSION@[1] as u8);
    assert(map_extension()[2] == MAP_EXTENSION@[2] as u8);
    assert(map_extension()[3] == MAP_EXTENSION@[3] as u8);
    assert(map_extension() =~= seq![0x6au8, 0x73u8, 0x6fu8, 0x6eu8]);
}

/// Of maps with one name the last is listed under it, with what is to be known of it.
pub proof fn law_last_map_counts(files: Seq<MapFileView>, i: int)
    requires
        0 <= i < files.len(),
        forall|j: int| i < j < files.len() ==> (#[trigger] files[j]).name != files[i].name,
    ensures
        maps_by_name(files).contains_key(files[i].name),
        maps_by_name(files)[files[i].name] == map_data(files[i]),
    decreases files.len(),
{
    if i < files.len() - 1 {
        let earlier = files.drop_last();
        assert(files[files.len() - 1].name != files[i].name);
        assert forall|j: int| i < j < earlier.len() implies (#[trigger] earlier[j]).name
            != earlier[i].name by {
            assert(files[j].name != files[i].name);
        }
        law_last_map_counts(earlier, i);
    }
}

/// A name that no map has is not listed.
pub proof fn law_unknown_map(files: Seq<MapFileView>, name: Seq<char>)
    requires
        forall|i: int| 0 <= i < files.len() ==> (#[trigger] files[i]).name != name,
    ensures
        !maps_by_name(files).contains_key(name),
    decreases files.len(),
{
    if files.len() > 0 {
        let earlier = files.drop_last();
        assert(files[files.len() - 1].name != name);
        assert forall|i: int| 0 <= i < earlier.len() implies (#[trigger] earlier[i]).name
            != name by {
            assert(files[i].name != name);
        }
        law_unknown_map(earlier, name);
    }
}

/// A list of maps says what each of them is, in order.
pub proof fn law_map_views(files: Seq<MapFile>)
    ensures
        map_views(files).len() == files.len(),
        forall|i: int|
            0 <= i < files.len() ==> (#[trigger] map_views(files)[i]).name == files[i].name@
                && map_views(files)[i].owners == files[i].owners@,
{
}

} // verus!
