//! The identifiers that the engine itself uses, interned once at start.

use crate::id::id_text;
use crate::interner::{all_interned_ok, extends, interned_all, own_texts, Interned, Interner};
use crate::tile_entity::DataIds;
use vstd::prelude::*;

verus! {

/// The identifiers of the parts of the tile menus.
#[derive(Clone, Copy, Debug, PartialEq, Eq, Structural)]
pub struct GuiIds {
    pub tile_config: Interned,
    pub tile_info: Interned,
    pub tile_config_script: Interned,
    pub tile_config_storage: Interned,
    pub tile_config_target: Interned,
}

/// The names of the parts of the tile menus, in the order of the fields of
/// `GuiIds`.
pub open spec fn gui_names() -> Seq<&'static str> {
    seq![
        "tile_config",
        "tile_info",
        "tile_config_script",
        "tile_config_storage",
        "tile_config_target",
    ]
}

/// The names of the data that the engine reads, in the order of the fields
/// of `DataIds`.
pub open spec fn data_names() -> Seq<&'static str> {
    seq!["buffer", "script", "target", "link", "linked"]
}

impl GuiIds {
    /// Interns the identifiers of the parts of the tile menus, each under the
    /// engine's own namespace; `None` where the handles ran out.
    pub fn new(interner: &mut Interner) -> (out: Option<GuiIds>)
        requires
            old(interner).wf(),
        ensures
            final(interner).wf(),
            final(interner).texts() == interned_all(old(interner).texts(), own_texts(gui_names())),
            extends(final(interner).texts(), old(interner).texts()),
            out is Some <==> all_interned_ok(old(interner).texts(), own_texts(gui_names())),
            out matches Some(ids) ==> {
                &&& final(interner).names(ids.tile_config, id_text("automancy"@, "tile_config"@))
                &&& final(interner).names(ids.tile_info, id_text("automancy"@, "tile_info"@))
                &&& final(interner).names(
                    ids.tile_config_script,
                    id_text("automancy"@, "tile_config_script"@),
                )
                &&& final(interner).names(
                    ids.tile_config_storage,
                    id_text("automancy"@, "tile_config_storage"@),
                )
                &&& final(interner).names(
                    ids.tile_config_target,
                    id_text("automancy"@, "tile_config_target"@),
                )
            },
    {
        let mut names: Vec<&str> = Vec::new();
        names.push("tile_config");
        names.push("tile_info");
        names.push("tile_config_script");
        names.push("tile_config_storage");
        names.push("tile_config_target");
        proof {
            reveal_strlit("tile_config");
            reveal_strlit("tile_info");
            reveal_strlit("tile_config_script");
            reveal_strlit("tile_config_storage");
            reveal_strlit("tile_config_target");
            assert(names@ =~= gui_names());
        }
        match interner.intern_own_all(&names) {
            Some(handles) => {
                proof {
                    let texts = own_texts(names@);
                    assert(interner.names(handles@[0], texts[0]));
                    assert(interner.names(handles@[1], texts[1]));
                    assert(interner.names(handles@[2], texts[2]));
                    assert(interner.names(handles@[3], texts[3]));
                    assert(interner.names(handles@[4], texts[4]));
                }
                Some(
                    GuiIds {
                        tile_config: handles[0],
                        tile_info: handles[1],
                        tile_config_script: handles[2],
                        tile_config_storage: handles[3],
                        tile_config_target: handles[4],
                    },
                )
            },
            None => None,
        }
    }
}

impl DataIds {
    /// Interns the identifiers of the data that the engine reads, each under
    /// the engine's own namespace; `None` where the handles ran out.
    pub fn new(interner: &mut Interner) -> (out: Option<DataIds>)
        requires
            old(interner).wf(),
        ensures
            final(interner).wf(),
            final(interner).texts() == interned_all(old(interner).texts(), own_texts(data_names())),
            extends(final(interner).texts(), old(interner).texts()),
            out is Some <==> all_interned_ok(old(interner).texts(), own_texts(data_names())),
            out matches Some(ids) ==> {
                &&& ids.wf()
                &&& final(interner).names(ids.buffer, id_text("automancy"@, "buffer"@))
                &&& final(interner).names(ids.script, id_text("automancy"@, "script"@))
                &&& final(interner).names(ids.target, id_text("automancy"@, "target"@))
                &&& final(interner).names(ids.link, id_text("automancy"@, "link"@))
                &&& final(interner).names(ids.linked, id_text("automancy"@, "linked"@))
            },
    {
        let mut names: Vec<&str> = Vec::new();
        names.push("buffer");
        names.push("script");
        names.push("target");
        names.push("link");
        names.push("linked");
        proof {
            reveal_strlit("buffer");
            reveal_strlit("script");
            reveal_strlit("target");
            reveal_strlit("link");
            reveal_strlit("linked");
            assert(names@ =~= data_names());
        }
        match interner.intern_own_all(&names) {
            Some(handles) => {
                proof {
                    reveal_strlit("automancy");
                    let texts = own_texts(names@);
                    assert(interner.names(handles@[0], texts[0]));
                    assert(interner.names(handles@[1], texts[1]));
                    assert(interner.names(handles@[2], texts[2]));
                    assert(interner.names(handles@[3], texts[3]));
                    assert(interner.names(handles@[4], texts[4]));
                    // The five texts differ: in their first letter after the
                    // separator, or in their length.
                    assert(texts[0][10] == 'b');
                    assert(texts[1][10] == 's');
                    assert(texts[2][10] == 't');
                    assert(texts[3][10] == 'l');
                    assert(texts[4][10] == 'l');
                    assert(texts[3].len() == 14);
                    assert(texts[4].len() == 16);
                }
                Some(
                    DataIds {
                        buffer: handles[0],
                        script: handles[1],
                        target: handles[2],
                        link: handles[3],
                        linked: handles[4],
                    },
                )
            },
            None => None,
        }
    }
}

} // verus!
