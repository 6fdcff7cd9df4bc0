//! Saving and loading: a map becomes its saved form, with every identifier
//! written out, and a saved form becomes a map again, with every identifier
//! looked up in the configuration that is loaded now.

use crate::coord::TileCoord;
use crate::data::{Data, DataMap, DataView};
use crate::format::{
    dec_map, decode_map, enc_map, encode_map, lemma_map, map_fits, SavedMap, SavedTile, SavedTileView,
};
use crate::interner::{
    distinct_texts, handle_of, lemma_handle_of, Interned, Interner, TABLE_LIMIT,
};
use crate::inventory::{added, Inventory, ItemAmount};
use crate::map::MapInfo;
use crate::map::TileMap;
use crate::ordered_map::{
    ascending, entries_map, has_key, lemma_entry_in_map, lemma_insert_map, lemma_sorted_entries,
    position, sorted_entries, Key,
};
use crate::registry::Registry;
use crate::script::{raw_stack_views, ItemStackRaw};
use crate::tile_entity::{
    buffer_listed, buffer_of, link_of, script_of, target_of, DataIds, TileView,
};
use vstd::prelude::*;

verus! {

/// Whether `texts` hold a text under `handle`.
pub open spec fn known(texts: Seq<Seq<char>>, handle: Interned) -> bool {
    handle.index < texts.len()
}

/// The stacks of `stacks`, each item by the text that `texts` hold under it.
pub open spec fn saved_stacks(stacks: Seq<(Interned, ItemAmount)>, texts: Seq<Seq<char>>) -> Seq<
    (Seq<char>, ItemAmount),
> {
    Seq::new(stacks.len(), |i: int| (texts[stacks[i].0.index as int], stacks[i].1))
}

/// Whether `texts` hold a text under every item of `stacks`.
pub open spec fn stacks_known(stacks: Seq<(Interned, ItemAmount)>, texts: Seq<Seq<char>>) -> bool {
    forall|i: int| 0 <= i < stacks.len() ==> known(texts, (#[trigger] stacks[i]).0)
}

/// Whether `tile` can be saved: `texts` hold a text under its type, under
/// every item of its buffer, and under its script.
pub open spec fn tile_known(tile: TileView, texts: Seq<Seq<char>>, ids: DataIds) -> bool {
    &&& known(texts, tile.id)
    &&& stacks_known(sorted_entries(buffer_of(tile.data, ids)), texts)
    &&& (script_of(tile.data, ids) matches Some(script) ==> known(texts, script))
}

/// The saved form of `tile`.
pub open spec fn saved_tile(tile: TileView, texts: Seq<Seq<char>>, ids: DataIds) -> SavedTileView {
    SavedTileView {
        coord: tile.coord,
        id: texts[tile.id.index as int],
        modifier: tile.modifier,
        inventory: saved_stacks(sorted_entries(buffer_of(tile.data, ids)), texts),
        target: target_of(tile.data, ids),
        link: link_of(tile.data, ids),
        script: match script_of(tile.data, ids) {
            Some(script) => Some(texts[script.index as int]),
            None => None,
        },
    }
}

/// Whether every tile of `listing` can be saved.
pub open spec fn listing_known(
    listing: Seq<(TileCoord, TileView)>,
    texts: Seq<Seq<char>>,
    ids: DataIds,
) -> bool {
    forall|i: int| 0 <= i < listing.len() ==> tile_known((#[trigger] listing[i]).1, texts, ids)
}

/// The saved form of `listing`: the saved form of each tile, in order.
pub open spec fn saved_listing(
    listing: Seq<(TileCoord, TileView)>,
    texts: Seq<Seq<char>>,
    ids: DataIds,
) -> Seq<SavedTileView> {
    Seq::new(listing.len(), |i: int| saved_tile(listing[i].1, texts, ids))
}

/// The counts that the first `n` saved stacks stand for: each stack whose
/// item `texts` hold is added, in order; the others are left out.
pub open spec fn loaded_counts(
    stacks: Seq<(Seq<char>, ItemAmount)>,
    texts: Seq<Seq<char>>,
    n: nat,
) -> Map<Interned, ItemAmount>
    decreases n,
{
    if n == 0 {
        Map::empty()
    } else {
        let before = loaded_counts(stacks, texts, (n - 1) as nat);
        match handle_of(texts, stacks[n - 1].0) {
            Some(item) => added(before, item, stacks[n - 1].1),
            None => before,
        }
    }
}

/// The data of a tile that is loaded from `saved`: its buffer where the saved
/// inventory has stacks, its target and its link where they were saved, and
/// its script where `texts` hold it.
pub open spec fn loaded_data(saved: SavedTileView, texts: Seq<Seq<char>>, ids: DataIds) -> Map<
    Interned,
    DataView,
> {
    let d0 = Map::<Interned, DataView>::empty();
    let d1 = if saved.inventory.len() > 0 {
        d0.insert(
            ids.buffer,
            DataView::Inventory(loaded_counts(saved.inventory, texts, saved.inventory.len())),
        )
    } else {
        d0
    };
    let d2 = match saved.target {
        Some(target) => d1.insert(ids.target, DataView::Coord(target)),
        None => d1,
    };
    let d3 = match saved.link {
        Some(link) => d2.insert(ids.link, DataView::Coord(link)),
        None => d2,
    };
    match saved.script {
        Some(text) => match handle_of(texts, text) {
            Some(script) => d3.insert(ids.script, DataView::Id(script)),
            None => d3,
        },
        None => d3,
    }
}

/// The tile that is loaded from `saved`: none where `texts` do not hold its
/// type, or the configuration has no such tile type.
pub open spec fn loaded_tile(
    saved: SavedTileView,
    texts: Seq<Seq<char>>,
    tile_types: Set<Interned>,
    ids: DataIds,
) -> Option<TileView> {
    match handle_of(texts, saved.id) {
        Some(id) => if tile_types.contains(id) {
            Some(
                TileView {
                    id,
                    coord: saved.coord,
                    modifier: saved.modifier,
                    data: loaded_data(saved, texts, ids),
                    active: true,
                },
            )
        } else {
            None
        },
        None => None,
    }
}

/// The map that is loaded from the first `n` tiles of `saved`: each tile that
/// can be loaded is put at its coordinate, in order.
pub open spec fn loaded_map(
    saved: Seq<SavedTileView>,
    texts: Seq<Seq<char>>,
    tile_types: Set<Interned>,
    ids: DataIds,
    n: nat,
) -> Map<TileCoord, TileView>
    decreases n,
{
    if n == 0 {
        Map::empty()
    } else {
        let before = loaded_map(saved, texts, tile_types, ids, (n - 1) as nat);
        match loaded_tile(saved[n - 1], texts, tile_types, ids) {
            Some(tile) => before.insert(tile.coord, tile),
            None => before,
        }
    }
}

/// The saved form of the stacks of `inventory`; `None` where the interner
/// does not know one of the items.
fn save_stacks(inventory: &Inventory, interner: &Interner) -> (out: Option<Vec<ItemStackRaw>>)
    requires
        inventory.wf(),
        interner.wf(),
    ensures
        out is Some <==> stacks_known(inventory.stacks(), interner.texts()),
        out matches Some(stacks) ==> raw_stack_views(stacks@) == saved_stacks(
            inventory.stacks(),
            interner.texts(),
        ),
{
    let mut out: Vec<ItemStackRaw> = Vec::new();
    let n = inventory.len();
    let mut i: usize = 0;
    while i < n
        invariant
            interner.wf(),
            n == inventory.stacks().len(),
            i <= n,
            out@.len() == i,
            forall|k: int| 0 <= k < i ==> known(interner.texts(), (#[trigger] inventory.stacks()[k]).0),
            forall|k: int|
                0 <= k < i ==> (#[trigger] out@[k])@ == (
                    interner.texts()[inventory.stacks()[k].0.index as int],
                    inventory.stacks()[k].1,
                ),
        decreases n - i,
    {
        let (item, amount) = inventory.stack_at(i);
        match interner.resolve_text(item) {
            Some(id) => {
                out.push(ItemStackRaw { id, amount });
            },
            None => {
                assert(!known(interner.texts(), inventory.stacks()[i as int].0));
                return None;
            },
        }
        i = i + 1;
    }
    proof {
        assert(raw_stack_views(out@) =~= saved_stacks(inventory.stacks(), interner.texts()));
    }
    Some(out)
}

/// The saved form of `map`, with every identifier written out as `interner`
/// knows it; `None` where the interner does not know one of them.
pub fn to_saved(map: &TileMap, interner: &Interner, ids: &DataIds, save_time: u64) -> (out: Option<
    SavedMap,
>)
    requires
        map.wf(),
        interner.wf(),
    ensures
        out is Some <==> listing_known(map.listing(), interner.texts(), *ids),
        out matches Some(saved) ==> saved@ == (
            save_time,
            saved_listing(map.listing(), interner.texts(), *ids),
        ),
{
    let mut tiles: Vec<SavedTile> = Vec::new();
    let n = map.len();
    let mut i: usize = 0;
    let ghost texts = interner.texts();
    while i < n
        invariant
            map.wf(),
            interner.wf(),
            texts == interner.texts(),
            n == map.listing().len(),
            i <= n,
            tiles@.len() == i,
            forall|k: int| 0 <= k < i ==> tile_known((#[trigger] map.listing()[k]).1, texts, *ids),
            forall|k: int|
                0 <= k < i ==> (#[trigger] tiles@[k])@ == saved_tile(map.listing()[k].1, texts, *ids),
        decreases n - i,
    {
        let tile = map.tile_at(i);
        let ghost view = map.listing()[i as int].1;
        let id = match interner.resolve_text(tile.id()) {
            Some(id) => id,
            None => {
                assert(!tile_known(map.listing()[i as int].1, texts, *ids));
                return None;
            },
        };
        let buffer = tile.buffer(ids);
        proof {
            lemma_sorted_entries(buffer.stacks());
        }
        let inventory = match save_stacks(&buffer, interner) {
            Some(stacks) => stacks,
            None => {
                assert(!tile_known(map.listing()[i as int].1, texts, *ids));
                return None;
            },
        };
        let script = match tile.script_id(ids) {
            Some(script) => match interner.resolve_text(script) {
                Some(text) => Some(text),
                None => {
                    assert(!tile_known(map.listing()[i as int].1, texts, *ids));
                    return None;
                },
            },
            None => None,
        };
        tiles.push(
            SavedTile {
                coord: tile.coord(),
                id,
                modifier: tile.modifier(),
                inventory,
                target: tile.target(ids),
                link: tile.link(ids),
                script,
            },
        );
        i = i + 1;
    }
    let saved = SavedMap { save_time, tiles };
    proof {
        assert(saved@.1 =~= saved_listing(map.listing(), texts, *ids));
    }
    Some(saved)
}

/// The inventory that the saved stacks stand for.
fn load_stacks(stacks: &Vec<ItemStackRaw>, interner: &Interner) -> (out: Inventory)
    requires
        interner.wf(),
    ensures
        out.wf(),
        out@ == loaded_counts(raw_stack_views(stacks@), interner.texts(), stacks@.len()),
{
    let mut out = Inventory::new();
    let n = stacks.len();
    let mut i: usize = 0;
    while i < n
        invariant
            interner.wf(),
            n == stacks@.len(),
            i <= n,
            out.wf(),
            out@ == loaded_counts(raw_stack_views(stacks@), interner.texts(), i as nat),
        decreases n - i,
    {
        match interner.lookup_text(stacks[i].id.as_str()) {
            Some(item) => {
                out.add(item, stacks[i].amount);
            },
            None => {},
        }
        i = i + 1;
    }
    out
}

/// The data of the tile that is loaded from `saved`.
fn load_data(saved: &SavedTile, interner: &Interner, ids: &DataIds) -> (out: DataMap)
    requires
        interner.wf(),
    ensures
        out.wf(),
        out@ == loaded_data(saved@, interner.texts(), *ids),
{
    let mut data = DataMap::new();
    if saved.inventory.len() > 0 {
        data.set(ids.buffer, Data::Inventory(load_stacks(&saved.inventory, interner)));
    }
    if let Some(target) = saved.target {
        data.set(ids.target, Data::Coord(target));
    }
    if let Some(link) = saved.link {
        data.set(ids.link, Data::Coord(link));
    }
    if let Some(text) = &saved.script {
        if let Some(script) = interner.lookup_text(text.as_str()) {
            data.set(ids.script, Data::Id(script));
        }
    }
    data
}

/// The map that `saved` stands for in the configuration that is loaded now:
/// a tile whose type the configuration does not have is left out.
pub fn from_saved(saved: &SavedMap, map_name: String, interner: &Interner, registry: &Registry) -> (map:
    TileMap)
    requires
        interner.wf(),
        registry.wf(),
    ensures
        map.wf(),
        map.name_text() == map_name@,
        map@ == loaded_map(
            saved@.1,
            interner.texts(),
            registry.tiles().dom(),
            registry.data_ids(),
            saved@.1.len(),
        ),
{
    let mut map = TileMap::new_empty(map_name);
    let ids = registry.ids();
    let n = saved.tiles.len();
    let mut i: usize = 0;
    while i < n
        invariant
            interner.wf(),
            registry.wf(),
            ids == registry.data_ids(),
            n == saved.tiles@.len(),
            n == saved@.1.len(),
            i <= n,
            map.wf(),
            map.name_text() == map_name@,
            map@ == loaded_map(saved@.1, interner.texts(), registry.tiles().dom(), ids, i as nat),
        decreases n - i,
    {
        let tile = &saved.tiles[i];
        assert(saved@.1[i as int] == tile@);
        match interner.lookup_text(tile.id.as_str()) {
            Some(id) => {
                if registry.has_tile(id) {
                    let data = load_data(tile, interner, &ids);
                    map.insert(tile.coord, id, tile.modifier, data);
                }
            },
            None => {},
        }
        i = i + 1;
    }
    map
}

/// The level at which saved maps are compressed: the default of the
/// compressor.
pub const COMPRESSION_LEVEL: i32 = 0;

/// What `zstd::decode_all` makes of `data`: the bytes that the frames of
/// `data` hold, and `None` where `data` are no zstd frames.
pub uninterp spec fn zstd_decoded(data: Seq<u8>) -> Option<Seq<u8>>;

/// What `zstd::encode_all` makes of `data` at the compression level `level`:
/// the zstd frames that it writes, which the bytes and the level alone decide,
/// and `None` where the compressor reports an error.
pub uninterp spec fn zstd_encoded(data: Seq<u8>, level: i32) -> Option<Seq<u8>>;

/// `zstd::encode_all`: the zstd frames of `data` at the level `level`, which
/// `zstd::decode_all` turns back into `data`; `None` where the compressor
/// reports an error.
#[verifier::external_body]
fn compress(data: &[u8], level: i32) -> (out: Option<Vec<u8>>)
    ensures
        (match out {
            Some(frames) => Some(frames@),
            None => None,
        }) == zstd_encoded(data@, level),
        out matches Some(frames) ==> zstd_decoded(frames@) == Some(data@),
{
    zstd::encode_all(data, level).ok()
}

/// `zstd::decode_all`: the bytes that the frames of `data` hold; `None` where
/// the decompressor reports an error.
#[verifier::external_body]
fn decompress(data: &[u8]) -> (out: Option<Vec<u8>>)
    ensures
        (match out {
            Some(bytes) => Some(bytes@),
            None => None,
        }) == zstd_decoded(data@),
{
    zstd::decode_all(data).ok()
}

/// Why a map could not be saved.
#[derive(Clone, Copy, Debug, PartialEq, Eq, Structural)]
pub enum SaveError {
    /// The interner does not know an identifier that the map uses.
    UnknownId,
    /// A text or a list of the map is too long to be written.
    TooLong,
    /// The compressor reported an error.
    Compression,
}

/// The saved map that the contents of a file stand for, with its time of
/// saving: what the decompressed bytes read as.
pub open spec fn saved_in(file: Seq<u8>) -> Option<(u64, Seq<SavedTileView>)> {
    match zstd_decoded(file) {
        Some(bytes) => dec_map(bytes),
        None => None,
    }
}

/// The contents of the file that a map with the tiles `listing` is saved in
/// at `save_time`: its saved form, written out and compressed. `None` where
/// the compressor reports an error.
pub open spec fn file_of(
    listing: Seq<(TileCoord, TileView)>,
    texts: Seq<Seq<char>>,
    ids: DataIds,
    save_time: u64,
) -> Option<Seq<u8>> {
    zstd_encoded(enc_map(save_time, saved_listing(listing, texts, ids)), COMPRESSION_LEVEL)
}

/// Whether a map with the tiles `listing` can be saved: the interner knows
/// every identifier in it, every text and list of it can be written, and the
/// compressor takes the bytes.
pub open spec fn can_save(
    listing: Seq<(TileCoord, TileView)>,
    texts: Seq<Seq<char>>,
    ids: DataIds,
    save_time: u64,
) -> bool {
    &&& listing_known(listing, texts, ids)
    &&& map_fits(saved_listing(listing, texts, ids))
    &&& file_of(listing, texts, ids, save_time) is Some
}

/// What saving a map with the tiles `listing` at `save_time` comes to: the
/// contents of its file, or the first thing that stands in the way.
pub open spec fn save_outcome(
    listing: Seq<(TileCoord, TileView)>,
    texts: Seq<Seq<char>>,
    ids: DataIds,
    save_time: u64,
) -> Result<Seq<u8>, SaveError> {
    if !listing_known(listing, texts, ids) {
        Err(SaveError::UnknownId)
    } else if !map_fits(saved_listing(listing, texts, ids)) {
        Err(SaveError::TooLong)
    } else {
        match file_of(listing, texts, ids, save_time) {
            Some(file) => Ok(file),
            None => Err(SaveError::Compression),
        }
    }
}

/// What a save has returned, with the contents of the file as a sequence.
pub open spec fn saved_bytes(out: Result<(Vec<u8>, MapInfo), SaveError>) -> Result<
    Seq<u8>,
    SaveError,
> {
    match out {
        Ok((file, _)) => Ok(file@),
        Err(e) => Err(e),
    }
}

/// The map that decompressed bytes stand for in the configuration that is
/// loaded now; the empty map where there are none, or they are the saved form
/// of no map.
pub open spec fn loaded_plain(
    bytes: Option<Seq<u8>>,
    texts: Seq<Seq<char>>,
    tile_types: Set<Interned>,
    ids: DataIds,
) -> Map<TileCoord, TileView> {
    match bytes {
        Some(bytes) => match dec_map(bytes) {
            Some(saved) => loaded_map(saved.1, texts, tile_types, ids, saved.1.len()),
            None => Map::empty(),
        },
        None => Map::empty(),
    }
}

/// The map that the contents of a file stand for in the configuration that is
/// loaded now; the empty map where there is no file, or the file holds no
/// saved map.
pub open spec fn loaded_from(
    file: Option<Seq<u8>>,
    texts: Seq<Seq<char>>,
    tile_types: Set<Interned>,
    ids: DataIds,
) -> Map<TileCoord, TileView> {
    match file {
        Some(bytes) => match saved_in(bytes) {
            Some(saved) => loaded_map(saved.1, texts, tile_types, ids, saved.1.len()),
            None => Map::empty(),
        },
        None => Map::empty(),
    }
}

/// The name of the file that the map `map_name` is saved in.
pub fn map_path(map_name: &str) -> (path: String)
    ensures
        path@ == "map/"@ + map_name@ + ".bin"@,
{
    let mut path = "map/".to_owned();
    path.append(map_name);
    path.append(".bin");
    path
}

/// What saving has come to once the compressor has answered: the compressed
/// bytes with the summary of the map, or the error of the compressor.
pub fn saved_file(frames: Option<Vec<u8>>, info: MapInfo) -> (out: Result<(Vec<u8>, MapInfo), SaveError>)
    ensures
        out == (match frames {
            Some(file) => Ok::<(Vec<u8>, MapInfo), SaveError>((file, info)),
            None => Err::<(Vec<u8>, MapInfo), SaveError>(SaveError::Compression),
        }),
{
    match frames {
        Some(file) => Ok((file, info)),
        None => Err(SaveError::Compression),
    }
}

/// The contents of the file that `map` is saved in, with the summary of the
/// map as saved at `save_time`.
pub fn save(map: &TileMap, interner: &Interner, ids: &DataIds, save_time: u64) -> (out: Result<
    (Vec<u8>, MapInfo),
    SaveError,
>)
    requires
        map.wf(),
        interner.wf(),
    ensures
        out is Ok <==> can_save(map.listing(), interner.texts(), *ids, save_time),
        saved_bytes(out) == save_outcome(map.listing(), interner.texts(), *ids, save_time),
        out matches Ok((file, info)) ==> {
            &&& Some(file@) == file_of(map.listing(), interner.texts(), *ids, save_time)
            &&& saved_in(file@) == Some(
                (save_time, saved_listing(map.listing(), interner.texts(), *ids)),
            )
            &&& info.tile_count == map.listing().len()
            &&& info.save_time == save_time
        },
        out matches Err(e) ==> match e {
            SaveError::UnknownId => !listing_known(map.listing(), interner.texts(), *ids),
            SaveError::TooLong => listing_known(map.listing(), interner.texts(), *ids) && !map_fits(
                saved_listing(map.listing(), interner.texts(), *ids),
            ),
            SaveError::Compression => {
                &&& listing_known(map.listing(), interner.texts(), *ids)
                &&& map_fits(saved_listing(map.listing(), interner.texts(), *ids))
                &&& file_of(map.listing(), interner.texts(), *ids, save_time) is None
            },
        },
{
    let saved = match to_saved(map, interner, ids, save_time) {
        Some(saved) => saved,
        None => {
            return Err(SaveError::UnknownId);
        },
    };
    let bytes = match encode_map(&saved) {
        Some(bytes) => bytes,
        None => {
            return Err(SaveError::TooLong);
        },
    };
    proof {
        lemma_map(saved@.0, saved@.1);
    }
    saved_file(compress(bytes.as_slice(), COMPRESSION_LEVEL), map.info(save_time))
}

/// The map named `map_name` that decompressed bytes stand for in the
/// configuration that is loaded now. Where there are none, or they are the
/// saved form of no map, the map is empty.
pub fn load_plain(bytes: Option<&[u8]>, map_name: String, interner: &Interner, registry: &Registry) -> (map:
    TileMap)
    requires
        interner.wf(),
        registry.wf(),
    ensures
        map.wf(),
        map.name_text() == map_name@,
        map@ == loaded_plain(
            match bytes {
                Some(bytes) => Some(bytes@),
                None => None,
            },
            interner.texts(),
            registry.tiles().dom(),
            registry.data_ids(),
        ),
{
    let bytes = match bytes {
        Some(bytes) => bytes,
        None => {
            return TileMap::new_empty(map_name);
        },
    };
    match decode_map(bytes) {
        Some(saved) => from_saved(&saved, map_name, interner, registry),
        None => TileMap::new_empty(map_name),
    }
}

/// The map named `map_name` that the contents of its file stand for in the
/// configuration that is loaded now. Where there is no file, or the file
/// holds no saved map, the map is empty.
pub fn load(file: Option<&[u8]>, map_name: String, interner: &Interner, registry: &Registry) -> (map:
    TileMap)
    requires
        interner.wf(),
        registry.wf(),
    ensures
        map.wf(),
        map.name_text() == map_name@,
        map@ == loaded_from(
            match file {
                Some(bytes) => Some(bytes@),
                None => None,
            },
            interner.texts(),
            registry.tiles().dom(),
            registry.data_ids(),
        ),
{
    let frames = match file {
        Some(frames) => frames,
        None => {
            return TileMap::new_empty(map_name);
        },
    };
    match decompress(frames) {
        Some(bytes) => load_plain(Some(bytes.as_slice()), map_name, interner, registry),
        None => load_plain(None, map_name, interner, registry),
    }
}

impl TileMap {
    /// The name of the file that the map `map_name` is saved in.
    pub fn path(map_name: &str) -> (path: String)
        ensures
            path@ == "map/"@ + map_name@ + ".bin"@,
    {
        map_path(map_name)
    }

    /// The contents of the file that this map is saved in, with the summary
    /// of the map as saved at `save_time`.
    pub fn save(&self, interner: &Interner, ids: &DataIds, save_time: u64) -> (out: Result<
        (Vec<u8>, MapInfo),
        SaveError,
    >)
        requires
            self.wf(),
            interner.wf(),
        ensures
            out is Ok <==> can_save(self.listing(), interner.texts(), *ids, save_time),
            saved_bytes(out) == save_outcome(self.listing(), interner.texts(), *ids, save_time),
            out matches Ok((file, info)) ==> {
                &&& saved_in(file@) == Some(
                    (save_time, saved_listing(self.listing(), interner.texts(), *ids)),
                )
                &&& info.tile_count == self.listing().len()
                &&& info.save_time == save_time
            },
    {
        save(self, interner, ids, save_time)
    }

    /// The map named `map_name` that the contents of its file stand for in
    /// the configuration that is loaded now. Where there is no file, or the
    /// file holds no saved map, the map is empty.
    pub fn load(file: Option<&[u8]>, map_name: String, interner: &Interner, registry: &Registry) -> (map:
        TileMap)
        requires
            interner.wf(),
            registry.wf(),
        ensures
            map.wf(),
            map.name_text() == map_name@,
            map@ == loaded_from(
                match file {
                    Some(bytes) => Some(bytes@),
                    None => None,
                },
                interner.texts(),
                registry.tiles().dom(),
                registry.data_ids(),
            ),
    {
        load(file, map_name, interner, registry)
    }
}

/// The summary of the map that decompressed bytes stand for; `None` where
/// there are none, or they are the saved form of no map.
pub fn info_of(bytes: Option<&[u8]>) -> (out: Option<MapInfo>)
    ensures
        out == (match bytes {
            Some(bytes) => match dec_map(bytes@) {
                Some(saved) => Some(
                    MapInfo { tile_count: saved.1.len() as u64, save_time: saved.0 },
                ),
                None => None,
            },
            None => None,
        }),
{
    match bytes {
        Some(bytes) => match decode_map(bytes) {
            Some(saved) => Some(
                MapInfo { tile_count: saved.tiles.len() as u64, save_time: saved.save_time },
            ),
            None => None,
        },
        None => None,
    }
}

/// The summary of the map that the contents of a file stand for; `None`
/// where the file holds no saved map.
pub fn read_info(file: &[u8]) -> (out: Option<MapInfo>)
    ensures
        out == (match saved_in(file@) {
            Some(saved) => Some(MapInfo { tile_count: saved.1.len() as u64, save_time: saved.0 }),
            None => None,
        }),
{
    match decompress(file) {
        Some(bytes) => info_of(Some(bytes.as_slice())),
        None => info_of(None),
    }
}

/// Whether two tiles agree in all that is saved of a tile: type, place,
/// variant, buffer, target, link and script.
pub open spec fn same_saved_parts(a: TileView, b: TileView, ids: DataIds) -> bool {
    &&& a.id == b.id
    &&& a.coord == b.coord
    &&& a.modifier == b.modifier
    &&& a.active == b.active
    &&& buffer_of(a.data, ids) == buffer_of(b.data, ids)
    &&& target_of(a.data, ids) == target_of(b.data, ids)
    &&& link_of(a.data, ids) == link_of(b.data, ids)
    &&& script_of(a.data, ids) == script_of(b.data, ids)
}

/// The saved stacks of an inventory load as its counts.
pub proof fn lemma_counts_round_trip(
    stacks: Seq<(Interned, ItemAmount)>,
    texts: Seq<Seq<char>>,
    n: nat,
)
    requires
        ascending(stacks),
        forall|k: int| 0 <= k < stacks.len() ==> (#[trigger] stacks[k]).1 > 0,
        stacks_known(stacks, texts),
        distinct_texts(texts),
        texts.len() <= TABLE_LIMIT,
        n <= stacks.len(),
    ensures
        loaded_counts(saved_stacks(stacks, texts), texts, n) == entries_map(stacks.take(n as int)),
        ascending(stacks.take(n as int)),
    decreases n,
{
    let front = stacks.take(n as int);
    assert forall|i: int, j: int| 0 <= i < j < front.len() implies (#[trigger] front[i]).0.index < (
    #[trigger] front[j]).0.index by {
        assert(stacks[i].0.index < stacks[j].0.index);
    }
    if n == 0 {
        assert(entries_map(front) =~= Map::<Interned, ItemAmount>::empty());
    } else {
        let k = (n - 1) as int;
        lemma_counts_round_trip(stacks, texts, (n - 1) as nat);
        let before = stacks.take(k);
        assert(known(texts, stacks[k].0));
        lemma_handle_of(texts, stacks[k].0);
        assert(saved_stacks(stacks, texts)[k].0 == texts[stacks[k].0.index as int]);
        assert(!entries_map(before).contains_key(stacks[k].0)) by {
            if has_key(before, stacks[k].0) {
                let i = position(before, stacks[k].0);
                assert(stacks[i].0.index < stacks[k].0.index);
            }
        }
        assert forall|j: int| 0 <= j < before.len() implies (#[trigger] before[j]).0.index
            < stacks[k].0.index by {
            assert(stacks[j].0.index < stacks[k].0.index);
        }
        lemma_insert_map(before, k, stacks[k].0, stacks[k].1);
        assert(before.insert(k, stacks[k]) =~= front);
    }
}

/// The saved form of a tile loads as a tile that agrees with it in all that
/// is saved, where the configuration has its type, and as none otherwise.
pub proof fn lemma_tile_round_trip(
    tile: TileView,
    texts: Seq<Seq<char>>,
    tile_types: Set<Interned>,
    ids: DataIds,
)
    requires
        tile.active,
        tile_known(tile, texts, ids),
        buffer_listed(tile, ids),
        distinct_texts(texts),
        texts.len() <= TABLE_LIMIT,
        ids.wf(),
    ensures
        loaded_tile(saved_tile(tile, texts, ids), texts, tile_types, ids) is Some
            <==> tile_types.contains(tile.id),
        tile_types.contains(tile.id) ==> same_saved_parts(
            loaded_tile(saved_tile(tile, texts, ids), texts, tile_types, ids)->Some_0,
            tile,
            ids,
        ),
{
    let saved = saved_tile(tile, texts, ids);
    lemma_handle_of(texts, tile.id);
    let stacks = sorted_entries(buffer_of(tile.data, ids));
    lemma_counts_round_trip(stacks, texts, stacks.len());
    assert(stacks.take(stacks.len() as int) =~= stacks);
    if stacks.len() == 0 {
        assert(entries_map(stacks) =~= Map::<Interned, ItemAmount>::empty());
    }
    if script_of(tile.data, ids) is Some {
        lemma_handle_of(texts, script_of(tile.data, ids)->Some_0);
    }
    let data = loaded_data(saved, texts, ids);
    assert(buffer_of(data, ids) == buffer_of(tile.data, ids));
    assert(target_of(data, ids) == target_of(tile.data, ids));
    assert(link_of(data, ids) == link_of(tile.data, ids));
    assert(script_of(data, ids) == script_of(tile.data, ids));
}

/// What loading the saved form of the first `n` tiles of a listing gives:
/// the tiles whose type the configuration has, each agreeing with the tile
/// that was saved in all that is saved.
pub proof fn lemma_listing_round_trip(
    listing: Seq<(TileCoord, TileView)>,
    texts: Seq<Seq<char>>,
    tile_types: Set<Interned>,
    ids: DataIds,
    n: nat,
)
    requires
        ascending(listing),
        forall|i: int|
            0 <= i < listing.len() ==> (#[trigger] listing[i]).1.coord == listing[i].0
                && listing[i].1.active && buffer_listed(listing[i].1, ids),
        listing_known(listing, texts, ids),
        distinct_texts(texts),
        texts.len() <= TABLE_LIMIT,
        ids.wf(),
        n <= listing.len(),
    ensures
        forall|coord: TileCoord|
            #![trigger loaded_map(saved_listing(listing, texts, ids), texts, tile_types, ids, n).contains_key(coord)]
            loaded_map(saved_listing(listing, texts, ids), texts, tile_types, ids, n).contains_key(
                coord,
            ) <==> exists|j: int|
                0 <= j < n && (#[trigger] listing[j]).0 == coord && tile_types.contains(listing[j].1.id),
        forall|j: int|
            0 <= j < n && tile_types.contains((#[trigger] listing[j]).1.id) ==> same_saved_parts(
                loaded_map(saved_listing(listing, texts, ids), texts, tile_types, ids, n)[listing[j].0],
                listing[j].1,
                ids,
            ),
    decreases n,
{
    let saved = saved_listing(listing, texts, ids);
    let after = loaded_map(saved, texts, tile_types, ids, n);
    if n > 0 {
        let k = (n - 1) as int;
        lemma_listing_round_trip(listing, texts, tile_types, ids, (n - 1) as nat);
        let before = loaded_map(saved, texts, tile_types, ids, (n - 1) as nat);
        assert(tile_known(listing[k].1, texts, ids));
        lemma_tile_round_trip(listing[k].1, texts, tile_types, ids);
        assert(saved[k] == saved_tile(listing[k].1, texts, ids));
        assert forall|coord: TileCoord| after.contains_key(coord) <==> exists|j: int|
            0 <= j < n && (#[trigger] listing[j]).0 == coord && tile_types.contains(
                listing[j].1.id,
            ) by {
            if after.contains_key(coord) {
                if before.contains_key(coord) {
                    let j = choose|j: int|
                        0 <= j < n - 1 && (#[trigger] listing[j]).0 == coord && tile_types.contains(
                            listing[j].1.id,
                        );
                    assert(listing[j].0 == coord);
                } else {
                    assert(listing[k].0 == coord);
                }
            }
            if exists|j: int|
                0 <= j < n && (#[trigger] listing[j]).0 == coord && tile_types.contains(
                    listing[j].1.id,
                ) {
                let j = choose|j: int|
                    0 <= j < n && (#[trigger] listing[j]).0 == coord && tile_types.contains(
                        listing[j].1.id,
                    );
                if j < k {
                    assert(before.contains_key(coord));
                }
            }
        }
        assert forall|j: int|
            0 <= j < n && tile_types.contains((#[trigger] listing[j]).1.id) implies same_saved_parts(
            after[listing[j].0],
            listing[j].1,
            ids,
        ) by {
            if j < k {
                assert(listing[j].0.key_rank() < listing[k].0.key_rank());
                assert(listing[j].0 != listing[k].0);
            }
        }
    }
}

/// Loading the saved form of a listing gives a map that holds a tile
/// wherever the listing held one whose type the configuration has, and
/// nowhere else; each such tile agrees with the tile of the listing in all
/// that is saved.
pub proof fn lemma_save_then_load(
    listing: Seq<(TileCoord, TileView)>,
    texts: Seq<Seq<char>>,
    tile_types: Set<Interned>,
    ids: DataIds,
    file: Seq<u8>,
)
    requires
        ascending(listing),
        forall|i: int|
            0 <= i < listing.len() ==> (#[trigger] listing[i]).1.coord == listing[i].0
                && listing[i].1.active && buffer_listed(listing[i].1, ids),
        listing_known(listing, texts, ids),
        distinct_texts(texts),
        texts.len() <= TABLE_LIMIT,
        ids.wf(),
        saved_in(file) matches Some(saved) && saved.1 == saved_listing(listing, texts, ids),
    ensures
        forall|coord: TileCoord|
            #![trigger loaded_from(Some(file), texts, tile_types, ids).contains_key(coord)]
            loaded_from(Some(file), texts, tile_types, ids).contains_key(coord) <==> (entries_map(
                listing,
            ).contains_key(coord) && tile_types.contains(entries_map(listing)[coord].id)),
        forall|coord: TileCoord|
            #![trigger loaded_from(Some(file), texts, tile_types, ids)[coord]]
            loaded_from(Some(file), texts, tile_types, ids).contains_key(coord) ==> same_saved_parts(
                loaded_from(Some(file), texts, tile_types, ids)[coord],
                entries_map(listing)[coord],
                ids,
            ),
{
    let loaded = loaded_from(Some(file), texts, tile_types, ids);
    lemma_listing_round_trip(listing, texts, tile_types, ids, listing.len());
    assert forall|coord: TileCoord|
        loaded.contains_key(coord) <==> (entries_map(listing).contains_key(coord)
            && tile_types.contains(entries_map(listing)[coord].id)) by {
        if loaded.contains_key(coord) {
            let j = choose|j: int|
                0 <= j < listing.len() && (#[trigger] listing[j]).0 == coord && tile_types.contains(
                    listing[j].1.id,
                );
            lemma_entry_in_map(listing, j);
        }
        if entries_map(listing).contains_key(coord) && tile_types.contains(
            entries_map(listing)[coord].id,
        ) {
            let j = position(listing, coord);
            lemma_entry_in_map(listing, j);
            assert(listing[j].0 == coord);
        }
    }
    assert forall|coord: TileCoord| loaded.contains_key(coord) implies same_saved_parts(
        #[trigger] loaded[coord],
        entries_map(listing)[coord],
        ids,
    ) by {
        let j = position(listing, coord);
        lemma_entry_in_map(listing, j);
        assert(listing[j].0 == coord);
    }
}

/// Saving a map and loading it back gives a map that holds a tile wherever
/// the saved map held one whose type the configuration still has, and
/// nowhere else; each such tile has the type, the variant, the buffer, the
/// target, the link and the script of the tile that was saved.
pub proof fn law_save_then_load(
    map: &TileMap,
    interner: &Interner,
    registry: &Registry,
    file: Seq<u8>,
)
    requires
        map.wf(),
        interner.wf(),
        registry.wf(),
        listing_known(map.listing(), interner.texts(), registry.data_ids()),
        saved_in(file) matches Some(saved) && saved.1 == saved_listing(
            map.listing(),
            interner.texts(),
            registry.data_ids(),
        ),
    ensures
        forall|coord: TileCoord|
            #![trigger loaded_from(Some(file), interner.texts(), registry.tiles().dom(), registry.data_ids()).contains_key(coord)]
            loaded_from(
                Some(file),
                interner.texts(),
                registry.tiles().dom(),
                registry.data_ids(),
            ).contains_key(coord) <==> (map@.contains_key(coord) && registry.tiles().contains_key(
                map@[coord].id,
            )),
        forall|coord: TileCoord|
            #![trigger loaded_from(Some(file), interner.texts(), registry.tiles().dom(), registry.data_ids())[coord]]
            loaded_from(
                Some(file),
                interner.texts(),
                registry.tiles().dom(),
                registry.data_ids(),
            ).contains_key(coord) ==> same_saved_parts(
                loaded_from(
                    Some(file),
                    interner.texts(),
                    registry.tiles().dom(),
                    registry.data_ids(),
                )[coord],
                map@[coord],
                registry.data_ids(),
            ),
{
    map.lemma_listing();
    map.lemma_buffers_listed(registry.data_ids());
    lemma_save_then_load(
        map.listing(),
        interner.texts(),
        registry.tiles().dom(),
        registry.data_ids(),
        file,
    );
}

/// Two maps that hold the same tiles and are saved at the same time have the
/// same saved form, byte for byte, and saving them comes to the same: the
/// same file, or the same error.
pub proof fn law_same_tiles_same_bytes(
    a: &TileMap,
    b: &TileMap,
    texts: Seq<Seq<char>>,
    ids: DataIds,
)
    requires
        a.wf(),
        b.wf(),
        a@ == b@,
    ensures
        a.listing() == b.listing(),
        forall|save_time: u64|
            enc_map(save_time, saved_listing(a.listing(), texts, ids)) == #[trigger] enc_map(
                save_time,
                saved_listing(b.listing(), texts, ids),
            ),
        forall|save_time: u64|
            save_outcome(a.listing(), texts, ids, save_time) == #[trigger] save_outcome(
                b.listing(),
                texts,
                ids,
                save_time,
            ),
{
    a.lemma_listing_determined(b);
}

} // verus!
