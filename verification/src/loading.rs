//! Taking configuration in: what a file names by written identifiers becomes
//! a tile type, an item, a tag or a script of the configuration, with every
//! identifier interned.

use crate::coord::TileCoord;
use crate::data::{Data, DataMap, DataView, IdSet};
use crate::interner::{
    extends, first_error, handle_of, holds_text, interned_all, text_views, InternError, Interned,
    Interner,
};
use crate::inventory::{Inventory, Item, ItemAmount, ItemRaw, ItemStack};
use crate::persist::loaded_counts;
use crate::registry::{DataRaw, ResourceManager, TagRaw, Tile, TileRaw, TileTypeView};
use crate::script::{raw_stack_views, ItemStackRaw, Script, ScriptRaw, ScriptView};
use vstd::prelude::*;

verus! {

/// The view of each text of a list.
pub open spec fn string_views(texts: Seq<String>) -> Seq<Seq<char>> {
    Seq::new(texts.len(), |i: int| texts[i]@)
}

/// The texts of the items of `stacks`, in order.
pub open spec fn stack_texts(stacks: Seq<(Seq<char>, ItemAmount)>) -> Seq<Seq<char>> {
    Seq::new(stacks.len(), |i: int| stacks[i].0)
}

/// The handle under which `texts` hold `text`.
pub open spec fn named(texts: Seq<Seq<char>>, text: Seq<char>) -> Interned {
    handle_of(texts, text)->Some_0
}

/// The stacks of `stacks`, each item by the handle under which `texts` hold
/// it.
pub open spec fn named_stacks(stacks: Seq<(Seq<char>, ItemAmount)>, texts: Seq<Seq<char>>) -> Seq<
    ItemStack,
> {
    Seq::new(
        stacks.len(),
        |i: int| ItemStack { item: Item { id: named(texts, stacks[i].0) }, amount: stacks[i].1 },
    )
}

/// The handles under which `texts` hold the entries of `entries`.
pub open spec fn named_list(entries: Seq<Seq<char>>, texts: Seq<Seq<char>>) -> Seq<Interned> {
    Seq::new(entries.len(), |i: int| named(texts, entries[i]))
}

/// The set of the handles under which `texts` hold the first `n` of
/// `entries`.
pub open spec fn named_set(entries: Seq<Seq<char>>, texts: Seq<Seq<char>>, n: nat) -> Set<Interned>
    decreases n,
{
    if n == 0 {
        Set::empty()
    } else {
        named_set(entries, texts, (n - 1) as nat).insert(named(texts, entries[n - 1]))
    }
}

/// What a script as configuration names it stands for.
pub struct ScriptRawView {
    pub id: Seq<char>,
    pub inputs: Option<Seq<(Seq<char>, ItemAmount)>>,
    pub outputs: Seq<(Seq<char>, ItemAmount)>,
}

/// The view of a script as configuration names it.
pub open spec fn script_raw_view(raw: &ScriptRaw) -> ScriptRawView {
    ScriptRawView {
        id: raw.id@,
        inputs: match raw.instructions.inputs {
            Some(inputs) => Some(raw_stack_views(inputs@)),
            None => None,
        },
        outputs: raw_stack_views(raw.instructions.outputs@),
    }
}

/// The inputs of a script; none where it names none.
pub open spec fn raw_inputs(raw: ScriptRawView) -> Seq<(Seq<char>, ItemAmount)> {
    match raw.inputs {
        Some(inputs) => inputs,
        None => Seq::empty(),
    }
}

/// The identifiers that a script names, in the order in which they are
/// interned: its own, those of its inputs, those of its outputs.
pub open spec fn script_texts(raw: ScriptRawView) -> Seq<Seq<char>> {
    seq![raw.id] + stack_texts(raw_inputs(raw)) + stack_texts(raw.outputs)
}

/// The script that `raw` names, by the handles under which `texts` hold its
/// identifiers.
pub open spec fn named_script(raw: ScriptRawView, texts: Seq<Seq<char>>) -> ScriptView {
    ScriptView {
        id: named(texts, raw.id),
        inputs: named_stacks(raw_inputs(raw), texts),
        outputs: named_stacks(raw.outputs, texts),
    }
}

/// What a typed value as configuration names it stands for.
pub enum DataRawView {
    Amount(ItemAmount),
    Id(Seq<char>),
    Coord(TileCoord),
    Bool(bool),
    Inventory(Seq<(Seq<char>, ItemAmount)>),
    VecId(Seq<Seq<char>>),
    SetId(Seq<Seq<char>>),
}

impl View for DataRaw {
    type V = DataRawView;

    open spec fn view(&self) -> DataRawView {
        match self {
            DataRaw::Amount(amount) => DataRawView::Amount(*amount),
            DataRaw::Id(id) => DataRawView::Id(id@),
            DataRaw::Coord(coord) => DataRawView::Coord(*coord),
            DataRaw::Bool(b) => DataRawView::Bool(*b),
            DataRaw::Inventory(stacks) => DataRawView::Inventory(raw_stack_views(stacks@)),
            DataRaw::VecId(ids) => DataRawView::VecId(string_views(ids@)),
            DataRaw::SetId(ids) => DataRawView::SetId(string_views(ids@)),
        }
    }
}

/// The identifiers that a value names, in order.
pub open spec fn data_texts(raw: DataRawView) -> Seq<Seq<char>> {
    match raw {
        DataRawView::Id(id) => seq![id],
        DataRawView::Inventory(stacks) => stack_texts(stacks),
        DataRawView::VecId(ids) => ids,
        DataRawView::SetId(ids) => ids,
        _ => Seq::empty(),
    }
}

/// The value that `raw` names, by the handles under which `texts` hold its
/// identifiers.
pub open spec fn named_data(raw: DataRawView, texts: Seq<Seq<char>>) -> DataView {
    match raw {
        DataRawView::Amount(amount) => DataView::Amount(amount),
        DataRawView::Id(id) => DataView::Id(named(texts, id)),
        DataRawView::Coord(coord) => DataView::Coord(coord),
        DataRawView::Bool(b) => DataView::Bool(b),
        DataRawView::Inventory(stacks) => DataView::Inventory(
            loaded_counts(stacks, texts, stacks.len()),
        ),
        DataRawView::VecId(ids) => DataView::VecId(named_list(ids, texts)),
        DataRawView::SetId(ids) => DataView::SetId(named_set(ids, texts, ids.len())),
    }
}

/// The views of the entries of a store as configuration names it.
pub open spec fn entry_views(entries: Seq<(String, DataRaw)>) -> Seq<(Seq<char>, DataRawView)> {
    Seq::new(entries.len(), |i: int| (entries[i].0@, entries[i].1@))
}

/// The identifiers that the first `n` entries of a store name, in order: for
/// each entry its key, and then what its value names.
pub open spec fn entries_texts(entries: Seq<(Seq<char>, DataRawView)>, n: nat) -> Seq<Seq<char>>
    decreases n,
{
    if n == 0 {
        Seq::empty()
    } else {
        entries_texts(entries, (n - 1) as nat) + (seq![entries[n - 1].0] + data_texts(
            entries[n - 1].1,
        ))
    }
}

/// The store that the first `n` entries name, by the handles under which
/// `texts` hold their identifiers; a later entry takes the place of an
/// earlier one with the same key.
pub open spec fn named_entries(
    entries: Seq<(Seq<char>, DataRawView)>,
    texts: Seq<Seq<char>>,
    n: nat,
) -> Map<Interned, DataView>
    decreases n,
{
    if n == 0 {
        Map::empty()
    } else {
        named_entries(entries, texts, (n - 1) as nat).insert(
            named(texts, entries[n - 1].0),
            named_data(entries[n - 1].1, texts),
        )
    }
}

/// What a tile type as configuration names it stands for.
pub struct TileRawView {
    pub id: Seq<char>,
    pub function: Option<Seq<char>>,
    pub model: Seq<char>,
    pub data: Seq<(Seq<char>, DataRawView)>,
}

impl View for TileRaw {
    type V = TileRawView;

    open spec fn view(&self) -> TileRawView {
        TileRawView {
            id: self.id@,
            function: match self.function {
                Some(function) => Some(function@),
                None => None,
            },
            model: self.model@,
            data: entry_views(self.data@),
        }
    }
}

/// The identifiers that a tile type names, in the order in which they are
/// interned: its own, that of its function, that of its model, and those of
/// its data.
pub open spec fn tile_texts(raw: TileRawView) -> Seq<Seq<char>> {
    seq![raw.id] + (match raw.function {
        Some(function) => seq![function],
        None => Seq::empty(),
    }) + seq![raw.model] + entries_texts(raw.data, raw.data.len())
}

/// The tile type that `raw` names, by the handles under which `texts` hold
/// its identifiers.
pub open spec fn named_tile(raw: TileRawView, texts: Seq<Seq<char>>) -> TileTypeView {
    TileTypeView {
        model: named(texts, raw.model),
        function: match raw.function {
            Some(function) => Some(named(texts, function)),
            None => None,
        },
        data: named_entries(raw.data, texts, raw.data.len()),
    }
}

/// The identifiers that a tag names, in the order in which they are
/// interned: its own, and those of its entries.
pub open spec fn tag_texts(raw: &TagRaw) -> Seq<Seq<char>> {
    seq![raw.id@] + string_views(raw.entries@)
}

/// Whether `texts` hold every text of `more`.
pub open spec fn all_held(texts: Seq<Seq<char>>, more: Seq<Seq<char>>) -> bool {
    forall|i: int| 0 <= i < more.len() ==> holds_text(texts, #[trigger] more[i])
}

/// Writes the texts of the items of `stacks` behind `list`.
fn push_stack_texts<'a>(list: &mut Vec<&'a str>, stacks: &'a Vec<ItemStackRaw>)
    ensures
        text_views(final(list)@) == text_views(old(list)@) + stack_texts(raw_stack_views(stacks@)),
{
    let n = stacks.len();
    let mut i: usize = 0;
    let ghost all = stack_texts(raw_stack_views(stacks@));
    while i < n
        invariant
            n == stacks@.len(),
            i <= n,
            all == stack_texts(raw_stack_views(stacks@)),
            text_views(list@) == text_views(old(list)@) + all.take(i as int),
        decreases n - i,
    {
        let ghost before = text_views(list@);
        list.push(stacks[i].id.as_str());
        proof {
            assert(text_views(list@) =~= before.push(stacks@[i as int].id@));
            assert(all.take(i as int + 1) =~= all.take(i as int).push(all[i as int]));
            assert(text_views(list@) =~= text_views(old(list)@) + all.take(i as int + 1));
        }
        i = i + 1;
    }
    proof {
        assert(all.take(n as int) =~= all);
    }
}

/// Writes the texts of `entries` behind `list`.
fn push_texts<'a>(list: &mut Vec<&'a str>, entries: &'a Vec<String>)
    ensures
        text_views(final(list)@) == text_views(old(list)@) + string_views(entries@),
{
    let n = entries.len();
    let mut i: usize = 0;
    let ghost all = string_views(entries@);
    while i < n
        invariant
            n == entries@.len(),
            i <= n,
            all == string_views(entries@),
            text_views(list@) == text_views(old(list)@) + all.take(i as int),
        decreases n - i,
    {
        let ghost before = text_views(list@);
        list.push(entries[i].as_str());
        proof {
            assert(text_views(list@) =~= before.push(entries@[i as int]@));
            assert(all.take(i as int + 1) =~= all.take(i as int).push(all[i as int]));
            assert(text_views(list@) =~= text_views(old(list)@) + all.take(i as int + 1));
        }
        i = i + 1;
    }
    proof {
        assert(all.take(n as int) =~= all);
    }
}

/// The stacks of `stacks`, each item by its handle; `None` where the
/// interner does not hold one of them.
fn name_stacks(stacks: &Vec<ItemStackRaw>, interner: &Interner) -> (out: Option<Vec<ItemStack>>)
    requires
        interner.wf(),
    ensures
        all_held(interner.texts(), stack_texts(raw_stack_views(stacks@))) ==> out is Some,
        out matches Some(named) ==> named@ == named_stacks(raw_stack_views(stacks@), interner.texts()),
{
    let mut out: Vec<ItemStack> = Vec::new();
    let n = stacks.len();
    let mut i: usize = 0;
    let ghost views = raw_stack_views(stacks@);
    while i < n
        invariant
            interner.wf(),
            n == stacks@.len(),
            i <= n,
            views == raw_stack_views(stacks@),
            out@.len() == i,
            forall|k: int|
                0 <= k < i ==> #[trigger] out@[k] == (ItemStack {
                    item: Item { id: named(interner.texts(), views[k].0) },
                    amount: views[k].1,
                }),
        decreases n - i,
    {
        match interner.lookup_text(stacks[i].id.as_str()) {
            Some(id) => {
                out.push(ItemStack { item: Item { id }, amount: stacks[i].amount });
            },
            None => {
                assert(!holds_text(interner.texts(), stack_texts(views)[i as int]));
                return None;
            },
        }
        i = i + 1;
    }
    proof {
        assert(out@ =~= named_stacks(views, interner.texts()));
    }
    Some(out)
}

/// The handles of `entries`; `None` where the interner does not hold one of
/// them.
fn name_list(entries: &Vec<String>, interner: &Interner) -> (out: Option<Vec<Interned>>)
    requires
        interner.wf(),
    ensures
        all_held(interner.texts(), string_views(entries@)) ==> out is Some,
        out matches Some(handles) ==> handles@ == named_list(string_views(entries@), interner.texts()),
{
    let mut out: Vec<Interned> = Vec::new();
    let n = entries.len();
    let mut i: usize = 0;
    while i < n
        invariant
            interner.wf(),
            n == entries@.len(),
            i <= n,
            out@.len() == i,
            forall|k: int|
                0 <= k < i ==> #[trigger] out@[k] == named(interner.texts(), entries@[k]@),
        decreases n - i,
    {
        match interner.lookup_text(entries[i].as_str()) {
            Some(id) => {
                out.push(id);
            },
            None => {
                assert(!holds_text(interner.texts(), string_views(entries@)[i as int]));
                return None;
            },
        }
        i = i + 1;
    }
    proof {
        assert(out@ =~= named_list(string_views(entries@), interner.texts()));
    }
    Some(out)
}

/// The set of the handles of `entries`; `None` where the interner does not
/// hold one of them.
fn name_set(entries: &Vec<String>, interner: &Interner) -> (out: Option<IdSet>)
    requires
        interner.wf(),
    ensures
        all_held(interner.texts(), string_views(entries@)) ==> out is Some,
        out matches Some(set) ==> set.wf() && set@ == named_set(
            string_views(entries@),
            interner.texts(),
            entries@.len(),
        ),
{
    let mut out = IdSet::new();
    let n = entries.len();
    let mut i: usize = 0;
    while i < n
        invariant
            interner.wf(),
            n == entries@.len(),
            i <= n,
            out.wf(),
            out@ == named_set(string_views(entries@), interner.texts(), i as nat),
        decreases n - i,
    {
        match interner.lookup_text(entries[i].as_str()) {
            Some(id) => {
                out.insert(id);
            },
            None => {
                assert(!holds_text(interner.texts(), string_views(entries@)[i as int]));
                return None;
            },
        }
        i = i + 1;
    }
    Some(out)
}

/// The inventory that `stacks` name.
fn name_inventory(stacks: &Vec<ItemStackRaw>, interner: &Interner) -> (out: Inventory)
    requires
        interner.wf(),
    ensures
        out.wf(),
        out@ == loaded_counts(raw_stack_views(stacks@), interner.texts(), stacks@.len()),
{
    let mut out = Inventory::new();
    let n = stacks.len();
    let mut i: usize = 0;
    while i < n
        invariant
            interner.wf(),
            n == stacks@.len(),
            i <= n,
            out.wf(),
            out@ == loaded_counts(raw_stack_views(stacks@), interner.texts(), i as nat),
        decreases n - i,
    {
        match interner.lookup_text(stacks[i].id.as_str()) {
            Some(item) => {
                out.add(item, stacks[i].amount);
            },
            None => {},
        }
        i = i + 1;
    }
    out
}

/// The value that `raw` names; `None` where the interner does not hold one of
/// its identifiers.
fn name_data(raw: &DataRaw, interner: &Interner) -> (out: Option<Data>)
    requires
        interner.wf(),
    ensures
        all_held(interner.texts(), data_texts(raw@)) ==> out is Some,
        out matches Some(value) ==> value.wf() && value@ == named_data(raw@, interner.texts()),
{
    match raw {
        DataRaw::Amount(amount) => Some(Data::Amount(*amount)),
        DataRaw::Id(id) => {
            assert(data_texts(raw@)[0] == id@);
            match interner.lookup_text(id.as_str()) {
                Some(id) => Some(Data::Id(id)),
                None => None,
            }
        },
        DataRaw::Coord(coord) => Some(Data::Coord(*coord)),
        DataRaw::Bool(b) => Some(Data::Bool(*b)),
        DataRaw::Inventory(stacks) => Some(Data::Inventory(name_inventory(stacks, interner))),
        DataRaw::VecId(ids) => match name_list(ids, interner) {
            Some(ids) => Some(Data::VecId(ids)),
            None => None,
        },
        DataRaw::SetId(ids) => match name_set(ids, interner) {
            Some(ids) => Some(Data::SetId(ids)),
            None => None,
        },
    }
}

/// Writes the identifiers that `raw` names behind `list`.
fn push_data_texts<'a>(list: &mut Vec<&'a str>, raw: &'a DataRaw)
    ensures
        text_views(final(list)@) == text_views(old(list)@) + data_texts(raw@),
{
    match raw {
        DataRaw::Id(id) => {
            list.push(id.as_str());
            assert(text_views(list@) =~= text_views(old(list)@) + data_texts(raw@));
        },
        DataRaw::Inventory(stacks) => {
            push_stack_texts(list, stacks);
        },
        DataRaw::VecId(ids) => {
            push_texts(list, ids);
        },
        DataRaw::SetId(ids) => {
            push_texts(list, ids);
        },
        _ => {
            assert(text_views(list@) =~= text_views(old(list)@) + data_texts(raw@));
        },
    }
}

/// Whether a part of a list of texts is held where the whole list is.
pub proof fn lemma_part_held(texts: Seq<Seq<char>>, whole: Seq<Seq<char>>, from: int, part: Seq<Seq<char>>)
    requires
        all_held(texts, whole),
        0 <= from,
        from + part.len() <= whole.len(),
        forall|i: int| 0 <= i < part.len() ==> part[i] == whole[from + i],
    ensures
        all_held(texts, part),
{
    assert forall|i: int| 0 <= i < part.len() implies holds_text(texts, #[trigger] part[i]) by {
        assert(holds_text(texts, whole[from + i]));
    }
}

impl ResourceManager {
    /// Takes an item in: its identifier is interned, and the item is put
    /// into the configuration. Gives its handle.
    pub fn load_item(&mut self, raw: &ItemRaw) -> (out: Result<Interned, InternError>)
        requires
            old(self).wf(),
        ensures
            final(self).wf(),
            extends(final(self).interner.texts(), old(self).interner.texts()),
            out matches Ok(id) ==> {
                &&& first_error(old(self).interner.texts(), seq![raw.id@]) is None
                &&& final(self).interner.texts() == interned_all(
                    old(self).interner.texts(),
                    seq![raw.id@],
                )
                &&& final(self).interner.names(id, raw.id@)
                &&& final(self).registry.items() == old(self).registry.items().insert(id, Item { id })
                &&& final(self).registry.tile_entries() == old(self).registry.tile_entries()
                &&& final(self).registry.tag_entries() == old(self).registry.tag_entries()
                &&& final(self).registry.scripts() == old(self).registry.scripts()
            },
            out matches Err(e) ==> first_error(old(self).interner.texts(), seq![raw.id@]) == Some(e)
                && final(self).registry == old(self).registry,
            final(self).registry.none_id() == old(self).registry.none_id(),
            final(self).registry.data_ids() == old(self).registry.data_ids(),
            final(self).registry.gui_ids() == old(self).registry.gui_ids(),
    {
        let mut texts: Vec<&str> = Vec::new();
        texts.push(raw.id.as_str());
        assert(text_views(texts@) =~= seq![raw.id@]);
        match self.interner.intern_texts(&texts) {
            Ok(handles) => {
                let id = handles[0];
                self.registry.add_item(id);
                Ok(id)
            },
            Err(e) => Err(e),
        }
    }

    /// Takes a tag in: its identifier and those of its entries are interned,
    /// and the tag is put into the configuration. Gives its handle.
    pub fn load_tag(&mut self, raw: &TagRaw) -> (out: Result<Interned, InternError>)
        requires
            old(self).wf(),
        ensures
            final(self).wf(),
            extends(final(self).interner.texts(), old(self).interner.texts()),
            out matches Ok(id) ==> {
                &&& first_error(old(self).interner.texts(), tag_texts(raw)) is None
                &&& final(self).interner.texts() == interned_all(
                    old(self).interner.texts(),
                    tag_texts(raw),
                )
                &&& final(self).interner.names(id, raw.id@)
                &&& final(self).registry.tags() == old(self).registry.tags().insert(
                    id,
                    named_set(
                        string_views(raw.entries@),
                        final(self).interner.texts(),
                        raw.entries@.len(),
                    ),
                )
                &&& final(self).registry.tile_entries() == old(self).registry.tile_entries()
                &&& final(self).registry.item_entries() == old(self).registry.item_entries()
                &&& final(self).registry.scripts() == old(self).registry.scripts()
            },
            out matches Err(e) ==> first_error(old(self).interner.texts(), tag_texts(raw)) == Some(e)
                && final(self).registry == old(self).registry,
            final(self).registry.none_id() == old(self).registry.none_id(),
            final(self).registry.data_ids() == old(self).registry.data_ids(),
            final(self).registry.gui_ids() == old(self).registry.gui_ids(),
    {
        let mut texts: Vec<&str> = Vec::new();
        texts.push(raw.id.as_str());
        assert(text_views(texts@) =~= seq![raw.id@]);
        push_texts(&mut texts, &raw.entries);
        match self.interner.intern_texts(&texts) {
            Ok(handles) => {
                let id = handles[0];
                proof {
                    let held = self.interner.texts();
                    let whole = text_views(texts@);
                    assert forall|i: int| 0 <= i < whole.len() implies holds_text(
                        held,
                        #[trigger] whole[i],
                    ) by {
                        assert(self.interner.names(handles@[i], texts@[i]@));
                    }
                    lemma_part_held(held, whole, 1, string_views(raw.entries@));
                    assert(whole[0] == texts@[0]@);
                    assert(whole[0] == raw.id@);
                    assert(self.interner.names(handles@[0], texts@[0]@));
                }
                match name_set(&raw.entries, &self.interner) {
                    Some(entries) => {
                        self.registry.add_tag(id, entries);
                        Ok(id)
                    },
                    None => Err(InternError::OutOfHandles),
                }
            },
            Err(e) => Err(e),
        }
    }

    /// Takes a script in: its identifier and those of its stacks are
    /// interned, and the script is put into the configuration. Gives its
    /// handle.
    pub fn load_script(&mut self, raw: &ScriptRaw) -> (out: Result<Interned, InternError>)
        requires
            old(self).wf(),
        ensures
            final(self).wf(),
            extends(final(self).interner.texts(), old(self).interner.texts()),
            out matches Ok(id) ==> {
                &&& first_error(old(self).interner.texts(), script_texts(script_raw_view(raw)))
                    is None
                &&& final(self).interner.texts() == interned_all(
                    old(self).interner.texts(),
                    script_texts(script_raw_view(raw)),
                )
                &&& final(self).interner.names(id, raw.id@)
                &&& final(self).registry.scripts() == old(self).registry.scripts().insert(
                    id,
                    named_script(script_raw_view(raw), final(self).interner.texts()),
                )
                &&& final(self).registry.tile_entries() == old(self).registry.tile_entries()
                &&& final(self).registry.item_entries() == old(self).registry.item_entries()
                &&& final(self).registry.tag_entries() == old(self).registry.tag_entries()
            },
            out matches Err(e) ==> first_error(
                old(self).interner.texts(),
                script_texts(script_raw_view(raw)),
            ) == Some(e) && final(self).registry == old(self).registry,
            final(self).registry.none_id() == old(self).registry.none_id(),
            final(self).registry.data_ids() == old(self).registry.data_ids(),
            final(self).registry.gui_ids() == old(self).registry.gui_ids(),
    {
        let ghost view = script_raw_view(raw);
        let mut texts: Vec<&str> = Vec::new();
        texts.push(raw.id.as_str());
        assert(text_views(texts@) =~= seq![raw.id@]);
        match &raw.instructions.inputs {
            Some(inputs) => {
                push_stack_texts(&mut texts, inputs);
            },
            None => {
                assert(text_views(texts@) =~= seq![raw.id@] + stack_texts(raw_inputs(view)));
            },
        }
        push_stack_texts(&mut texts, &raw.instructions.outputs);
        match self.interner.intern_texts(&texts) {
            Ok(handles) => {
                let id = handles[0];
                proof {
                    let held = self.interner.texts();
                    let whole = text_views(texts@);
                    assert forall|i: int| 0 <= i < whole.len() implies holds_text(
                        held,
                        #[trigger] whole[i],
                    ) by {
                        assert(self.interner.names(handles@[i], texts@[i]@));
                    }
                    lemma_part_held(held, whole, 1, stack_texts(raw_inputs(view)));
                    lemma_part_held(
                        held,
                        whole,
                        1 + raw_inputs(view).len() as int,
                        stack_texts(view.outputs),
                    );
                    assert(whole[0] == texts@[0]@);
                    assert(whole[0] == raw.id@);
                    assert(self.interner.names(handles@[0], texts@[0]@));
                    crate::interner::lemma_handle_of(held, id);
                }
                let inputs = match &raw.instructions.inputs {
                    Some(inputs) => match name_stacks(inputs, &self.interner) {
                        Some(inputs) => Some(inputs),
                        None => {
                            return Err(InternError::OutOfHandles);
                        },
                    },
                    None => None,
                };
                let outputs = match name_stacks(&raw.instructions.outputs, &self.interner) {
                    Some(outputs) => outputs,
                    None => {
                        return Err(InternError::OutOfHandles);
                    },
                };
                let script = Script::new(id, inputs, outputs);
                proof {
                    assert(script@.inputs =~= named_stacks(raw_inputs(view), self.interner.texts()));
                }
                self.registry.add_script(script);
                Ok(id)
            },
            Err(e) => Err(e),
        }
    }

    /// Takes a tile type in: its identifier, those of its function and its
    /// model, and those that its data name are interned, and the tile type
    /// is put into the configuration. Gives its handle.
    pub fn load_tile(&mut self, raw: &TileRaw) -> (out: Result<Interned, InternError>)
        requires
            old(self).wf(),
        ensures
            final(self).wf(),
            extends(final(self).interner.texts(), old(self).interner.texts()),
            out matches Ok(id) ==> {
                &&& first_error(old(self).interner.texts(), tile_texts(raw@)) is None
                &&& final(self).interner.texts() == interned_all(
                    old(self).interner.texts(),
                    tile_texts(raw@),
                )
                &&& final(self).interner.names(id, raw.id@)
                &&& final(self).registry.tiles() == old(self).registry.tiles().insert(
                    id,
                    named_tile(raw@, final(self).interner.texts()),
                )
                &&& final(self).registry.item_entries() == old(self).registry.item_entries()
                &&& final(self).registry.tag_entries() == old(self).registry.tag_entries()
                &&& final(self).registry.scripts() == old(self).registry.scripts()
            },
            out matches Err(e) ==> first_error(old(self).interner.texts(), tile_texts(raw@)) == Some(e)
                && final(self).registry == old(self).registry,
            final(self).registry.none_id() == old(self).registry.none_id(),
            final(self).registry.data_ids() == old(self).registry.data_ids(),
            final(self).registry.gui_ids() == old(self).registry.gui_ids(),
    {
        let ghost view = raw@;
        let ghost head = seq![view.id] + (match view.function {
            Some(function) => seq![function],
            None => Seq::empty(),
        }) + seq![view.model];
        let mut texts: Vec<&str> = Vec::new();
        texts.push(raw.id.as_str());
        match &raw.function {
            Some(function) => {
                texts.push(function.as_str());
            },
            None => {},
        }
        texts.push(raw.model.as_str());
        assert(text_views(texts@) =~= head);
        let n = raw.data.len();
        let mut i: usize = 0;
        while i < n
            invariant
                n == raw.data@.len(),
                i <= n,
                view == raw@,
                text_views(texts@) == head + entries_texts(view.data, i as nat),
            decreases n - i,
        {
            let ghost before = text_views(texts@);
            texts.push(raw.data[i].0.as_str());
            assert(text_views(texts@) =~= before + seq![view.data[i as int].0]);
            push_data_texts(&mut texts, &raw.data[i].1);
            proof {
                assert(text_views(texts@) =~= head + entries_texts(view.data, (i + 1) as nat));
            }
            i = i + 1;
        }
        let handles = match self.interner.intern_texts(&texts) {
            Ok(handles) => handles,
            Err(e) => {
                return Err(e);
            },
        };
        let id = handles[0];
        let ghost held = self.interner.texts();
        let ghost whole = text_views(texts@);
        proof {
            assert forall|k: int| 0 <= k < whole.len() implies holds_text(held, #[trigger] whole[k]) by {
                assert(self.interner.names(handles@[k], texts@[k]@));
            }
            assert(whole[0] == view.id);
            assert(whole[0] == texts@[0]@);
            assert(self.interner.names(handles@[0], texts@[0]@));
            lemma_part_held(held, whole, head.len() as int, entries_texts(view.data, n as nat));
        }
        let function = match &raw.function {
            Some(function) => {
                assert(whole[1] == function@);
                match self.interner.lookup_text(function.as_str()) {
                    Some(function) => Some(function),
                    None => {
                        return Err(InternError::OutOfHandles);
                    },
                }
            },
            None => None,
        };
        assert(holds_text(held, view.model)) by {
            assert(whole[head.len() - 1] == view.model);
        }
        let model = match self.interner.lookup_text(raw.model.as_str()) {
            Some(model) => model,
            None => {
                return Err(InternError::OutOfHandles);
            },
        };
        let mut data = DataMap::new();
        let mut j: usize = 0;
        while j < n
            invariant
                n == raw.data@.len(),
                j <= n,
                view == raw@,
                self.interner.wf(),
                held == self.interner.texts(),
                all_held(held, entries_texts(view.data, n as nat)),
                data.wf(),
                data@ == named_entries(view.data, held, j as nat),
            decreases n - j,
        {
            proof {
                lemma_entry_held(held, view.data, n as nat, j as int);
            }
            let key = match self.interner.lookup_text(raw.data[j].0.as_str()) {
                Some(key) => key,
                None => {
                    return Err(InternError::OutOfHandles);
                },
            };
            let value = match name_data(&raw.data[j].1, &self.interner) {
                Some(value) => value,
                None => {
                    return Err(InternError::OutOfHandles);
                },
            };
            data.set(key, value);
            j = j + 1;
        }
        self.registry.add_tile(id, Tile { model, function, data });
        proof {
            crate::interner::lemma_handle_of(held, id);
        }
        Ok(id)
    }
}

/// Where the texts that the first `n` entries name are all held, the key of
/// each of them and what its value names are held.
pub proof fn lemma_entry_held(
    texts: Seq<Seq<char>>,
    entries: Seq<(Seq<char>, DataRawView)>,
    n: nat,
    j: int,
)
    requires
        all_held(texts, entries_texts(entries, n)),
        0 <= j < n,
    ensures
        holds_text(texts, entries[j].0),
        all_held(texts, data_texts(entries[j].1)),
    decreases n,
{
    let whole = entries_texts(entries, n);
    let front = entries_texts(entries, (n - 1) as nat);
    let last = seq![entries[n - 1].0] + data_texts(entries[n - 1].1);
    assert(whole == front + last);
    if j == n - 1 {
        assert(whole[front.len() as int] == entries[j].0);
        assert forall|i: int| 0 <= i < data_texts(entries[j].1).len() implies holds_text(
            texts,
            #[trigger] data_texts(entries[j].1)[i],
        ) by {
            assert(whole[front.len() + 1 + i] == data_texts(entries[j].1)[i]);
        }
    } else {
        assert forall|i: int| 0 <= i < front.len() implies holds_text(texts, #[trigger] front[i]) by {
            assert(whole[i] == front[i]);
        }
        lemma_entry_held(texts, entries, (n - 1) as nat, j);
    }
}

} // verus!
