//! Scripts: what a tile consumes and what it produces on a tick.

use crate::interner::Interned;
use crate::inventory::{ItemAmount, ItemStack};
use crate::ordered_map::{ascending, entries_map, lemma_entry_in_map, lemma_value_views, position, value_views, OrderedMap};
use vstd::prelude::*;

verus! {

/// The stacks that a script takes in, if any, and those that it gives out.
pub struct Instructions {
    pub inputs: Option<Vec<ItemStack>>,
    pub outputs: Vec<ItemStack>,
}

/// A recipe, named by the handle of its identifier.
pub struct Script {
    pub id: Interned,
    pub instructions: Instructions,
}

/// A stack as configuration names it: the written form of the item's
/// identifier, and the amount.
#[derive(Debug)]
pub struct ItemStackRaw {
    pub id: String,
    pub amount: ItemAmount,
}

impl View for ItemStackRaw {
    type V = (Seq<char>, ItemAmount);

    open spec fn view(&self) -> (Seq<char>, ItemAmount) {
        (self.id@, self.amount)
    }
}

/// The views of a list of stacks as configuration names them.
pub open spec fn raw_stack_views(stacks: Seq<ItemStackRaw>) -> Seq<(Seq<char>, ItemAmount)> {
    Seq::new(stacks.len(), |i: int| stacks[i]@)
}

/// Instructions as configuration names them.
#[derive(Debug)]
pub struct InstructionsRaw {
    pub inputs: Option<Vec<ItemStackRaw>>,
    pub outputs: Vec<ItemStackRaw>,
}

/// A script as configuration names it.
#[derive(Debug)]
pub struct ScriptRaw {
    pub id: String,
    pub instructions: InstructionsRaw,
}

/// What a script stands for.
pub struct ScriptView {
    pub id: Interned,
    pub inputs: Seq<ItemStack>,
    pub outputs: Seq<ItemStack>,
}

impl View for Script {
    type V = ScriptView;

    /// A script without inputs takes in no stack.
    open spec fn view(&self) -> ScriptView {
        ScriptView {
            id: self.id,
            inputs: match self.instructions.inputs {
                Some(inputs) => inputs@,
                None => Seq::empty(),
            },
            outputs: self.instructions.outputs@,
        }
    }
}

/// A copy of a list of stacks.
pub fn copy_stacks(stacks: &Vec<ItemStack>) -> (copy: Vec<ItemStack>)
    ensures
        copy@ == stacks@,
{
    let mut copy: Vec<ItemStack> = Vec::new();
    let n = stacks.len();
    let mut i: usize = 0;
    while i < n
        invariant
            n == stacks@.len(),
            i <= n,
            copy@ == stacks@.take(i as int),
        decreases n - i,
    {
        let ghost before = copy@;
        copy.push(stacks[i]);
        proof {
            assert(stacks@.take(i as int + 1) =~= before.push(stacks@[i as int]));
        }
        i = i + 1;
    }
    proof {
        assert(stacks@.take(n as int) =~= stacks@);
    }
    copy
}

impl Script {
    /// The script `id` that takes `inputs` in and gives `outputs` out.
    pub fn new(id: Interned, inputs: Option<Vec<ItemStack>>, outputs: Vec<ItemStack>) -> (script:
        Script)
        ensures
            script.id == id,
            script.instructions.inputs == inputs,
            script.instructions.outputs == outputs,
    {
        Script { id, instructions: Instructions { inputs, outputs } }
    }

    /// A copy that stands for the same script.
    pub fn duplicate(&self) -> (copy: Script)
        ensures
            copy@ == self@,
    {
        let inputs = match &self.instructions.inputs {
            Some(inputs) => Some(copy_stacks(inputs)),
            None => None,
        };
        Script {
            id: self.id,
            instructions: Instructions { inputs, outputs: copy_stacks(&self.instructions.outputs) },
        }
    }
}

/// The scripts of a configuration, by the handle of their identifier.
pub struct ScriptTable {
    scripts: OrderedMap<Interned, Script>,
}

impl ScriptTable {
    /// The scripts, in ascending order of their handles.
    pub closed spec fn entries(&self) -> Seq<(Interned, Script)> {
        self.scripts.entries()
    }

    /// The handles ascend.
    pub open spec fn wf(&self) -> bool {
        ascending(self.entries())
    }

    /// What each handle stands for.
    pub open spec fn view(&self) -> Map<Interned, ScriptView> {
        entries_map(value_views(self.entries()))
    }

    /// A table without scripts.
    pub fn new() -> (table: ScriptTable)
        ensures
            table.wf(),
            table.entries() == Seq::<(Interned, Script)>::empty(),
            table@ == Map::<Interned, ScriptView>::empty(),
    {
        let table = ScriptTable { scripts: OrderedMap::new() };
        assert(table@ =~= Map::<Interned, ScriptView>::empty());
        table
    }

    /// The number of scripts.
    pub fn len(&self) -> (n: usize)
        ensures
            n == self.entries().len(),
    {
        self.scripts.len()
    }

    /// Puts `script` under its own handle, in place of what was there.
    pub fn insert(&mut self, script: Script)
        requires
            old(self).wf(),
        ensures
            final(self).wf(),
            final(self)@ == old(self)@.insert(script.id, script@),
    {
        proof {
            lemma_value_views(self.entries());
        }
        let id = script.id;
        self.scripts.insert(id, script);
        proof {
            lemma_value_views(self.entries());
            assert(self@ =~= old(self)@.insert(script.id, script@));
        }
    }

    /// The script under `id`.
    pub fn get(&self, id: Interned) -> (out: Option<&Script>)
        requires
            self.wf(),
        ensures
            out is Some <==> self@.contains_key(id),
            out matches Some(script) ==> script@ == self@[id],
    {
        proof {
            lemma_value_views(self.entries());
        }
        let out = self.scripts.get(id);
        proof {
            if out is Some {
                let i = position(self.entries(), id);
                lemma_entry_in_map(self.entries(), i);
            }
        }
        out
    }
}

} // verus!
