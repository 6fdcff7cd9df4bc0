//! The identifier interner: each identifier gets one compact handle, which
//! stands for it everywhere else.

use crate::id::{
    id_text, lemma_parse_text, lemma_word_automancy, parse_id, separator_free, Id, IdError,
};
use crate::ordered_map::Key;
use string_interner::backend::StringBackend;
use string_interner::symbol::SymbolU32;
use string_interner::StringInterner;
use string_interner::Symbol;
use vstd::prelude::*;

verus! {

/// The most texts a table can hold: one less than the number of handles.
pub const TABLE_LIMIT: usize = 0xFFFF_FFFF;

/// The table of interned texts, kept by `string_interner::StringInterner`
/// over its `StringBackend` with 32-bit symbols. Verus sees none of its
/// inside; `interned_texts` names what it holds.
#[verifier::external_body]
pub struct InternTable {
    inner: StringInterner<StringBackend<SymbolU32>>,
}

/// The texts that a table holds, each at the index of its symbol.
pub uninterp spec fn interned_texts(table: InternTable) -> Seq<Seq<char>>;

/// `StringInterner::new`: a table that holds nothing.
#[verifier::external_body]
fn table_new() -> (table: InternTable)
    ensures
        interned_texts(table) == Seq::<Seq<char>>::empty(),
{
    InternTable { inner: StringInterner::new() }
}

/// `StringInterner::len`: the number of texts held.
#[verifier::external_body]
fn table_len(table: &InternTable) -> (n: usize)
    ensures
        n == interned_texts(*table).len(),
{
    table.inner.len()
}

/// `StringInterner::get`: the index of the symbol under which `text` is
/// held, and `None` where the table does not hold it.
#[verifier::external_body]
fn table_get(table: &InternTable, text: &str) -> (out: Option<u32>)
    ensures
        out matches Some(i) ==> i < interned_texts(*table).len() && interned_texts(*table)[i as int]
            == text@,
        out is None ==> forall|j: int|
            0 <= j < interned_texts(*table).len() ==> interned_texts(*table)[j] != text@,
{
    match table.inner.get(text) {
        Some(symbol) => Some(symbol.to_usize() as u32),
        None => None,
    }
}

/// `StringInterner::get_or_intern`: a text that the table holds keeps its
/// symbol and the table stays as it is; a new text is put behind the others
/// and gets the next symbol. The outside function panics once the symbols
/// have run out, which `requires` leaves out.
#[verifier::external_body]
fn table_intern(table: &mut InternTable, text: &str) -> (out: u32)
    requires
        interned_texts(*old(table)).len() < TABLE_LIMIT,
    ensures
        out < interned_texts(*final(table)).len(),
        interned_texts(*final(table))[out as int] == text@,
        (exists|j: int|
            0 <= j < interned_texts(*old(table)).len() && interned_texts(*old(table))[j] == text@)
            ==> interned_texts(*final(table)) == interned_texts(*old(table)),
        (forall|j: int|
            0 <= j < interned_texts(*old(table)).len() ==> interned_texts(*old(table))[j] != text@)
            ==> interned_texts(*final(table)) == interned_texts(*old(table)).push(text@),
{
    table.inner.get_or_intern(text).to_usize() as u32
}

/// `StringInterner::resolve`: the text held under the symbol of index
/// `index`, and `None` where no text has that symbol.
#[verifier::external_body]
fn table_resolve(table: &InternTable, index: u32) -> (out: Option<String>)
    ensures
        out is Some <==> index < interned_texts(*table).len(),
        out matches Some(text) ==> text@ == interned_texts(*table)[index as int],
{
    match SymbolU32::try_from_usize(index as usize) {
        Some(symbol) => match table.inner.resolve(symbol) {
            Some(text) => Some(text.to_string()),
            None => None,
        },
        None => None,
    }
}

/// The handle of an interned identifier.
#[derive(Clone, Copy, Debug, PartialEq, Eq, Structural)]
pub struct Interned {
    pub index: u32,
}

impl Key for Interned {
    /// Handles ascend by their index.
    open spec fn key_rank(&self) -> int {
        self.index as int
    }

    proof fn rank_is_injective(a: Self, b: Self) {
    }

    fn key_before(&self, other: &Self) -> (b: bool) {
        self.index < other.index
    }
}

/// Whether `text` occurs in `texts`.
pub open spec fn holds_text(texts: Seq<Seq<char>>, text: Seq<char>) -> bool {
    exists|j: int| 0 <= j < texts.len() && texts[j] == text
}

/// Whether no text occurs twice in `texts`.
pub open spec fn distinct_texts(texts: Seq<Seq<char>>) -> bool {
    forall|i: int, j: int| 0 <= i < j < texts.len() ==> texts[i] != texts[j]
}

/// Whether every text of `texts` reads as an identifier.
pub open spec fn all_ids(texts: Seq<Seq<char>>) -> bool {
    forall|i: int| 0 <= i < texts.len() ==> (#[trigger] parse_id(texts[i])) is Ok
}

/// Whether `longer` holds every text of `shorter` at the same place.
pub open spec fn extends(longer: Seq<Seq<char>>, shorter: Seq<Seq<char>>) -> bool {
    &&& shorter.len() <= longer.len()
    &&& forall|i: int| 0 <= i < shorter.len() ==> longer[i] == shorter[i]
}

/// Why a text could not be interned.
#[derive(Clone, Copy, Debug, PartialEq, Eq, Structural)]
pub enum InternError {
    /// The text is no identifier.
    BadId(IdError),
    /// The identifier is new, and the handles have run out.
    OutOfHandles,
}

/// What interning `text` into a table that holds `texts` answers, apart from
/// the handle itself.
pub open spec fn intern_outcome(texts: Seq<Seq<char>>, text: Seq<char>) -> Result<(), InternError> {
    match parse_id(text) {
        Err(e) => Err(InternError::BadId(e)),
        Ok(_) => if !holds_text(texts, text) && texts.len() >= TABLE_LIMIT {
            Err(InternError::OutOfHandles)
        } else {
            Ok(())
        },
    }
}

/// The texts of a table that held `texts` after `text` was interned.
pub open spec fn interned(texts: Seq<Seq<char>>, text: Seq<char>) -> Seq<Seq<char>> {
    if intern_outcome(texts, text) is Ok && !holds_text(texts, text) {
        texts.push(text)
    } else {
        texts
    }
}

/// The texts of a table that held `texts` after each text of `more` was
/// interned in turn.
pub open spec fn interned_all(texts: Seq<Seq<char>>, more: Seq<Seq<char>>) -> Seq<Seq<char>>
    decreases more.len(),
{
    if more.len() == 0 {
        texts
    } else {
        interned(interned_all(texts, more.drop_last()), more.last())
    }
}

/// Whether each text of `more` can be interned in turn into a table that
/// holds `texts`.
pub open spec fn all_interned_ok(texts: Seq<Seq<char>>, more: Seq<Seq<char>>) -> bool
    decreases more.len(),
{
    if more.len() == 0 {
        true
    } else {
        &&& all_interned_ok(texts, more.drop_last())
        &&& intern_outcome(interned_all(texts, more.drop_last()), more.last()) is Ok
    }
}

/// Why the texts of `more` cannot all be interned in turn into a table that
/// holds `texts`: what the first of them that cannot be interned fails on.
pub open spec fn first_error(texts: Seq<Seq<char>>, more: Seq<Seq<char>>) -> Option<InternError>
    decreases more.len(),
{
    if more.len() == 0 {
        None
    } else {
        match first_error(texts, more.drop_last()) {
            Some(e) => Some(e),
            None => match intern_outcome(interned_all(texts, more.drop_last()), more.last()) {
                Err(e) => Some(e),
                Ok(_) => None,
            },
        }
    }
}

/// What each text of a list reads.
pub open spec fn text_views(texts: Seq<&str>) -> Seq<Seq<char>> {
    Seq::new(texts.len(), |i: int| texts[i]@)
}

/// The written forms of the identifiers `names` in the engine's own
/// namespace.
pub open spec fn own_texts(names: Seq<&str>) -> Seq<Seq<char>> {
    Seq::new(names.len(), |i: int| id_text("automancy"@, names[i]@))
}

/// The handle under which `texts` hold `text`, where they do.
pub open spec fn handle_of(texts: Seq<Seq<char>>, text: Seq<char>) -> Option<Interned> {
    if holds_text(texts, text) {
        Some(Interned { index: (choose|j: int| 0 <= j < texts.len() && texts[j] == text) as u32 })
    } else {
        None
    }
}

/// Among distinct texts, each is held under the handle of its own place.
pub proof fn lemma_handle_of(texts: Seq<Seq<char>>, handle: Interned)
    requires
        distinct_texts(texts),
        texts.len() <= TABLE_LIMIT,
        handle.index < texts.len(),
    ensures
        handle_of(texts, texts[handle.index as int]) == Some(handle),
{
    let text = texts[handle.index as int];
    assert(holds_text(texts, text));
    let j = choose|j: int| 0 <= j < texts.len() && texts[j] == text;
    if j < handle.index {
        assert(texts[j] != texts[handle.index as int]);
    } else if handle.index < j {
        assert(texts[handle.index as int] != texts[j]);
    }
}

/// The first error among the first `n` texts is the first error among all.
pub proof fn lemma_first_error_stays(texts: Seq<Seq<char>>, more: Seq<Seq<char>>, n: int)
    requires
        0 <= n <= more.len(),
        first_error(texts, more.take(n)) is Some,
    ensures
        first_error(texts, more) == first_error(texts, more.take(n)),
    decreases more.len() - n,
{
    if n < more.len() {
        assert(more.take(n + 1).drop_last() =~= more.take(n));
        lemma_first_error_stays(texts, more, n + 1);
    } else {
        assert(more.take(n) =~= more);
    }
}

/// What is to be done to intern a text, once the table has been asked for it.
#[derive(Clone, Copy, Debug, PartialEq, Eq, Structural)]
pub enum InternPlan {
    /// The table holds the text under this handle.
    Known(Interned),
    /// The text is new, and the table has room for it.
    Fresh,
    /// The text is new, and the handles have run out.
    Full,
}

/// What is to be done to intern a text that the table holds under `found`,
/// if it holds it, when the table holds `held` texts.
pub fn plan_intern(found: Option<u32>, held: usize) -> (plan: InternPlan)
    ensures
        plan == (match found {
            Some(index) => InternPlan::Known(Interned { index }),
            None => if held >= TABLE_LIMIT {
                InternPlan::Full
            } else {
                InternPlan::Fresh
            },
        }),
{
    match found {
        Some(index) => InternPlan::Known(Interned { index }),
        None => if held >= TABLE_LIMIT {
            InternPlan::Full
        } else {
            InternPlan::Fresh
        },
    }
}

/// The interner: identifiers in, handles out, and back.
pub struct Interner {
    table: InternTable,
}

impl Interner {
    /// The written forms of the interned identifiers, each at the index of its
    /// handle.
    pub closed spec fn texts(&self) -> Seq<Seq<char>> {
        interned_texts(self.table)
    }

    /// No identifier is held twice, all that is held is an identifier, and
    /// there are no more identifiers than handles.
    pub open spec fn wf(&self) -> bool {
        &&& distinct_texts(self.texts())
        &&& all_ids(self.texts())
        &&& self.texts().len() <= TABLE_LIMIT
    }

    /// Whether `handle` stands for an identifier of this interner.
    pub open spec fn knows(&self, handle: Interned) -> bool {
        handle.index < self.texts().len()
    }

    /// The parts of the identifier that `handle` stands for.
    pub open spec fn parts(&self, handle: Interned) -> (Seq<char>, Seq<char>) {
        parse_id(self.texts()[handle.index as int])->Ok_0
    }

    /// An interner that holds no identifier.
    pub fn new() -> (interner: Interner)
        ensures
            interner.wf(),
            interner.texts() == Seq::<Seq<char>>::empty(),
    {
        Interner { table: table_new() }
    }

    /// The number of interned identifiers.
    pub fn len(&self) -> (n: usize)
        ensures
            n == self.texts().len(),
    {
        table_len(&self.table)
    }

    /// The handle of `id`. An identifier that is held keeps its handle; a new
    /// one is put behind the others. `None` where `id` is new and the handles
    /// have run out.
    pub fn intern(&mut self, id: &Id) -> (out: Option<Interned>)
        requires
            old(self).wf(),
            id.wf(),
        ensures
            final(self).wf(),
            out is None <==> !holds_text(old(self).texts(), id.text()) && old(self).texts().len()
                >= TABLE_LIMIT,
            out is None ==> final(self).texts() == old(self).texts(),
            out matches Some(h) ==> final(self).knows(h) && final(self).texts()[h.index as int]
                == id.text() && final(self).parts(h) == id@,
            holds_text(old(self).texts(), id.text()) ==> final(self).texts() == old(self).texts(),
            out is Some && !holds_text(old(self).texts(), id.text()) ==> final(self).texts() == old(
                self,
            ).texts().push(id.text()),
    {
        let text = id.to_string();
        proof {
            lemma_parse_text(id@.0, id@.1);
        }
        let found = table_get(&self.table, text.as_str());
        match plan_intern(found, table_len(&self.table)) {
            InternPlan::Known(handle) => Some(handle),
            InternPlan::Full => None,
            InternPlan::Fresh => {
                let ghost before = self.texts();
                let index = table_intern(&mut self.table, text.as_str());
                proof {
                    let after = self.texts();
                    assert(after == before.push(text@));
                    assert forall|i: int| 0 <= i < after.len() implies (#[trigger] parse_id(
                        after[i],
                    )) is Ok by {
                        if i < before.len() {
                            assert(after[i] == before[i]);
                        }
                    }
                }
                Some(Interned { index })
            },
        }
    }

    /// The handle of `id`, where it is held.
    pub fn get(&self, id: &Id) -> (out: Option<Interned>)
        requires
            self.wf(),
            id.wf(),
        ensures
            out is Some <==> holds_text(self.texts(), id.text()),
            out matches Some(h) ==> self.knows(h) && self.texts()[h.index as int] == id.text()
                && self.parts(h) == id@,
    {
        let text = id.to_string();
        proof {
            lemma_parse_text(id@.0, id@.1);
        }
        match table_get(&self.table, text.as_str()) {
            Some(index) => Some(Interned { index }),
            None => None,
        }
    }

    /// Whether `handle` stands for the identifier that is written `text`.
    pub open spec fn names(&self, handle: Interned, text: Seq<char>) -> bool {
        self.knows(handle) && self.texts()[handle.index as int] == text
    }

    /// An identifier has one handle: two handles that stand for the same
    /// text are the same handle.
    pub proof fn law_one_handle(&self, a: Interned, b: Interned, text: Seq<char>)
        requires
            self.wf(),
            self.names(a, text),
            self.names(b, text),
        ensures
            a == b,
    {
        if a.index < b.index {
            assert(self.texts()[a.index as int] != self.texts()[b.index as int]);
        } else if b.index < a.index {
            assert(self.texts()[b.index as int] != self.texts()[a.index as int]);
        }
    }

    /// Reads `text` as an identifier and gives its handle, interning it where
    /// it is new.
    pub fn intern_text(&mut self, text: &str) -> (out: Result<Interned, InternError>)
        requires
            old(self).wf(),
        ensures
            final(self).wf(),
            final(self).texts() == interned(old(self).texts(), text@),
            extends(final(self).texts(), old(self).texts()),
            out matches Ok(h) ==> final(self).names(h, text@) && intern_outcome(
                old(self).texts(),
                text@,
            ) is Ok,
            out matches Err(e) ==> intern_outcome(old(self).texts(), text@) == Err::<(), InternError>(e),
    {
        match Id::from_str(text) {
            Err(e) => Err(InternError::BadId(e)),
            Ok(id) => match self.intern(&id) {
                Some(h) => Ok(h),
                None => Err(InternError::OutOfHandles),
            },
        }
    }

    /// The handle of the identifier `name` in the engine's own namespace.
    pub fn intern_own(&mut self, name: &str) -> (out: Option<Interned>)
        requires
            old(self).wf(),
            separator_free(name@),
        ensures
            final(self).wf(),
            final(self).texts() == interned(old(self).texts(), id_text("automancy"@, name@)),
            extends(final(self).texts(), old(self).texts()),
            out matches Some(h) ==> final(self).names(h, id_text("automancy"@, name@)),
            out is Some <==> intern_outcome(old(self).texts(), id_text("automancy"@, name@)) is Ok,
    {
        proof {
            lemma_word_automancy();
            lemma_parse_text("automancy"@, name@);
        }
        match Id::automancy(name.to_owned()) {
            Ok(id) => self.intern(&id),
            Err(_) => None,
        }
    }

    /// The handles of the identifiers `names` in the engine's own namespace,
    /// each interned where it is new; `None` where the handles ran out.
    pub fn intern_own_all(&mut self, names: &Vec<&str>) -> (out: Option<Vec<Interned>>)
        requires
            old(self).wf(),
            forall|i: int| 0 <= i < names@.len() ==> separator_free((#[trigger] names@[i])@),
        ensures
            final(self).wf(),
            final(self).texts() == interned_all(old(self).texts(), own_texts(names@)),
            extends(final(self).texts(), old(self).texts()),
            out is Some <==> all_interned_ok(old(self).texts(), own_texts(names@)),
            out matches Some(handles) ==> handles@.len() == names@.len() && forall|i: int|
                0 <= i < names@.len() ==> final(self).names(
                    #[trigger] handles@[i],
                    own_texts(names@)[i],
                ),
    {
        let mut handles: Vec<Interned> = Vec::new();
        let mut ok = true;
        let n = names.len();
        let mut i: usize = 0;
        let ghost texts = own_texts(names@);
        while i < n
            invariant
                n == names@.len(),
                i <= n,
                texts == own_texts(names@),
                forall|k: int| 0 <= k < names@.len() ==> separator_free((#[trigger] names@[k])@),
                self.wf(),
                self.texts() == interned_all(old(self).texts(), texts.take(i as int)),
                extends(self.texts(), old(self).texts()),
                ok == all_interned_ok(old(self).texts(), texts.take(i as int)),
                ok ==> handles@.len() == i,
                ok ==> forall|k: int| 0 <= k < i ==> self.names(#[trigger] handles@[k], texts[k]),
            decreases n - i,
        {
            proof {
                assert(texts.take(i as int + 1).drop_last() =~= texts.take(i as int));
                assert(texts.take(i as int + 1).last() == texts[i as int]);
            }
            let ghost before = self.texts();
            match self.intern_own(names[i]) {
                Some(h) => {
                    if ok {
                        handles.push(h);
                        proof {
                            assert forall|k: int| 0 <= k < i + 1 implies self.names(
                                #[trigger] handles@[k],
                                texts[k],
                            ) by {
                                if k < i {
                                    assert(before[handles@[k].index as int] == texts[k]);
                                }
                            }
                        }
                    }
                },
                None => {
                    ok = false;
                },
            }
            i = i + 1;
        }
        proof {
            assert(texts.take(n as int) =~= texts);
        }
        if ok {
            Some(handles)
        } else {
            None
        }
    }

    /// The handle of the identifier that is written `text`, where it is held.
    pub fn lookup_text(&self, text: &str) -> (out: Option<Interned>)
        requires
            self.wf(),
        ensures
            out == handle_of(self.texts(), text@),
            out matches Some(h) ==> self.names(h, text@),
    {
        match Id::from_str(text) {
            Ok(id) => {
                let out = self.get(&id);
                proof {
                    if out is Some {
                        lemma_handle_of(self.texts(), out->Some_0);
                    }
                }
                out
            },
            Err(_) => {
                proof {
                    if holds_text(self.texts(), text@) {
                        let j = choose|j: int| 0 <= j < self.texts().len() && self.texts()[j] == text@;
                        assert(parse_id(self.texts()[j]) is Ok);
                    }
                }
                None
            },
        }
    }

    /// The written form of the identifier that `handle` stands for.
    pub fn resolve_text(&self, handle: Interned) -> (out: Option<String>)
        requires
            self.wf(),
        ensures
            out is Some <==> self.knows(handle),
            out matches Some(text) ==> text@ == self.texts()[handle.index as int],
    {
        match self.resolve(handle) {
            Some(id) => Some(id.to_string()),
            None => None,
        }
    }

    /// The handles of the identifiers that are written `texts`, each interned
    /// in turn where it is new. Stops at the first text that cannot be
    /// interned, and says why.
    pub fn intern_texts(&mut self, texts: &Vec<&str>) -> (out: Result<Vec<Interned>, InternError>)
        requires
            old(self).wf(),
        ensures
            final(self).wf(),
            extends(final(self).texts(), old(self).texts()),
            out matches Ok(handles) ==> {
                &&& first_error(old(self).texts(), text_views(texts@)) is None
                &&& final(self).texts() == interned_all(old(self).texts(), text_views(texts@))
                &&& handles@.len() == texts@.len()
                &&& forall|i: int|
                    0 <= i < texts@.len() ==> final(self).names(#[trigger] handles@[i], texts@[i]@)
            },
            out matches Err(e) ==> first_error(old(self).texts(), text_views(texts@)) == Some(e),
    {
        let mut handles: Vec<Interned> = Vec::new();
        let n = texts.len();
        let mut i: usize = 0;
        let ghost views = text_views(texts@);
        while i < n
            invariant
                n == texts@.len(),
                i <= n,
                views == text_views(texts@),
                self.wf(),
                extends(self.texts(), old(self).texts()),
                first_error(old(self).texts(), views.take(i as int)) is None,
                self.texts() == interned_all(old(self).texts(), views.take(i as int)),
                handles@.len() == i,
                forall|k: int| 0 <= k < i ==> self.names(#[trigger] handles@[k], texts@[k]@),
            decreases n - i,
        {
            proof {
                assert(views.take(i as int + 1).drop_last() =~= views.take(i as int));
                assert(views.take(i as int + 1).last() == texts@[i as int]@);
            }
            let ghost before = self.texts();
            match self.intern_text(texts[i]) {
                Ok(h) => {
                    handles.push(h);
                    proof {
                        assert forall|k: int| 0 <= k < i + 1 implies self.names(
                            #[trigger] handles@[k],
                            texts@[k]@,
                        ) by {
                            if k < i {
                                assert(before[handles@[k].index as int] == texts@[k]@);
                            }
                        }
                    }
                },
                Err(e) => {
                    proof {
                        lemma_first_error_stays(old(self).texts(), views, i as int + 1);
                    }
                    return Err(e);
                },
            }
            i = i + 1;
        }
        proof {
            assert(views.take(n as int) =~= views);
        }
        Ok(handles)
    }

    /// The identifier that `handle` stands for.
    pub fn resolve(&self, handle: Interned) -> (out: Option<Id>)
        requires
            self.wf(),
        ensures
            out is Some <==> self.knows(handle),
            out matches Some(id) ==> id.wf() && id@ == self.parts(handle) && id.text()
                == self.texts()[handle.index as int],
    {
        match table_resolve(&self.table, handle.index) {
            Some(text) => {
                assert(parse_id(self.texts()[handle.index as int]) is Ok);
                match Id::from_str(text.as_str()) {
                    Ok(id) => Some(id),
                    Err(_) => None,
                }
            },
            None => None,
        }
    }
}

} // verus!
