//! What ticks come to in the smallest working world: a tile that produces,
//! and beside it a tile that stores what it is handed.

use crate::coord::TileCoord;
use crate::inventory::{added, count_in, ItemAmount, ItemStack, AMOUNT_CAP};
use crate::map::{
    received_all, script_for, step_transfers, tick_records, ticked_listing, tile_stepped, TickEnv,
    TransactionRecord,
};
use crate::ordered_map::{has_key, position};
use crate::script::ScriptView;
use crate::tile_entity::{buffer_of, target_of, DataIds, TileView, Transfer};
use crate::interner::Interned;
use vstd::prelude::*;

verus! {

/// Where the producer stands.
pub open spec fn producer_place() -> TileCoord {
    TileCoord { q: 0, r: 0 }
}

/// Where the storage stands: to the right of the producer.
pub open spec fn storage_place() -> TileCoord {
    TileCoord { q: 1, r: 0 }
}

/// Whether `listing` is a world of two tiles: where the producer stands, a
/// tile whose script takes nothing in and yields `output`, and which pushes to
/// the right; and where the storage stands, a tile that runs no script.
pub open spec fn producer_beside_storage(
    listing: Seq<(TileCoord, TileView)>,
    ids: DataIds,
    scripts: Map<Interned, ScriptView>,
    output: ItemStack,
) -> bool {
    let env = TickEnv { ids, scripts, instant: 0 };
    &&& ids.wf()
    &&& listing.len() == 2
    &&& listing[0].0 == producer_place()
    &&& listing[1].0 == storage_place()
    &&& listing[0].1.coord == producer_place()
    &&& listing[1].1.coord == storage_place()
    &&& listing[0].1.active
    &&& listing[1].1.active
    &&& script_for(listing[0].1, env) matches Some(script) && script.inputs.len() == 0
        && script.outputs == seq![output]
    &&& target_of(listing[0].1.data, ids) == Some(TileCoord { q: 1, r: 0 })
    &&& script_for(listing[1].1, env) is None
}

/// `listing` after the first `n` of the ticks at `instants`.
pub open spec fn after_run(
    listing: Seq<(TileCoord, TileView)>,
    ids: DataIds,
    scripts: Map<Interned, ScriptView>,
    instants: Seq<u64>,
    n: nat,
) -> Seq<(TileCoord, TileView)>
    decreases n,
{
    if n == 0 {
        listing
    } else {
        let before = after_run(listing, ids, scripts, instants, (n - 1) as nat);
        ticked_listing(before, TickEnv { ids, scripts, instant: instants[n - 1] }, before.len())
    }
}

/// The records of the first `n` of the ticks at `instants`, oldest first.
pub open spec fn records_of_run(
    listing: Seq<(TileCoord, TileView)>,
    ids: DataIds,
    scripts: Map<Interned, ScriptView>,
    instants: Seq<u64>,
    n: nat,
) -> Seq<TransactionRecord>
    decreases n,
{
    if n == 0 {
        Seq::empty()
    } else {
        let before = after_run(listing, ids, scripts, instants, (n - 1) as nat);
        records_of_run(listing, ids, scripts, instants, (n - 1) as nat) + tick_records(
            before,
            TickEnv { ids, scripts, instant: instants[n - 1] },
            before.len(),
        )
    }
}

/// What `count` comes to after `amount` was added to it `n` times: the sum,
/// held at the cap.
pub open spec fn filled(count: ItemAmount, amount: ItemAmount, n: nat) -> ItemAmount {
    if count + n * amount > AMOUNT_CAP {
        AMOUNT_CAP
    } else {
        (count + n * amount) as ItemAmount
    }
}

/// One tick of a producer beside a storage: the storage takes in the output,
/// one record is written, and the world is a producer beside a storage as
/// before.
pub proof fn lemma_one_tick(
    listing: Seq<(TileCoord, TileView)>,
    env: TickEnv,
    output: ItemStack,
)
    requires
        producer_beside_storage(listing, env.ids, env.scripts, output),
    ensures
        producer_beside_storage(ticked_listing(listing, env, 2), env.ids, env.scripts, output),
        buffer_of(ticked_listing(listing, env, 2)[1].1.data, env.ids) == added(
            buffer_of(listing[1].1.data, env.ids),
            output.item.id,
            output.amount,
        ),
        tick_records(listing, env, 2) == seq![
            TransactionRecord {
                source: producer_place(),
                dest: storage_place(),
                stack: output,
                instant: env.instant,
            },
        ],
{
    let ids = env.ids;
    let zero = TickEnv { ids, scripts: env.scripts, instant: 0 };
    assert(script_for(listing[0].1, env) == script_for(listing[0].1, zero));
    assert(script_for(listing[1].1, env) == script_for(listing[1].1, zero));
    let script = script_for(listing[0].1, env)->Some_0;
    assert(has_key(listing, storage_place())) by {
        assert(listing[1].0 == storage_place());
    }
    let j = position(listing, storage_place());
    assert(j == 1);
    let sent = step_transfers(listing, 0, env);
    assert(sent =~= seq![
        Transfer { source: producer_place(), dest: storage_place(), stack: output },
    ]);
    let first = tile_stepped(listing, 0, env);
    assert(ticked_listing(listing, env, 0) == listing);
    assert(ticked_listing(listing, env, 1) == first) by {
        reveal_with_fuel(ticked_listing, 2);
    }
    assert(received_all(listing[1].1, sent, 1, ids) == crate::tile_entity::received(
        listing[1].1,
        output,
        ids,
    )) by {
        reveal_with_fuel(received_all, 2);
    }
    assert(first[1].1.data == crate::tile_entity::with_buffer(
        listing[1].1.data,
        ids,
        added(buffer_of(listing[1].1.data, ids), output.item.id, output.amount),
    ));
    assert(script_for(first[1].1, env) is None);
    assert(step_transfers(first, 1, env) =~= Seq::<Transfer>::empty());
    let second = tile_stepped(first, 1, env);
    assert(second =~= first);
    assert(ticked_listing(listing, env, 2) == second) by {
        reveal_with_fuel(ticked_listing, 3);
    }
    assert(script_for(second[0].1, zero) == script_for(listing[0].1, zero));
    assert(script_for(second[1].1, zero) is None);
    assert(tick_records(listing, env, 2) =~= seq![
        TransactionRecord {
            source: producer_place(),
            dest: storage_place(),
            stack: output,
            instant: env.instant,
        },
    ]) by {
        reveal_with_fuel(tick_records, 3);
    }
}

/// A producer beside a storage fills it tick by tick. After `n` ticks the
/// storage holds the output `n` times over on top of what it held, up to the
/// cap, and every other count of it is as it was; and each tick has left one
/// record, of the output going from the producer to the storage at the
/// instant of that tick.
pub proof fn law_producer_fills_storage(
    listing: Seq<(TileCoord, TileView)>,
    ids: DataIds,
    scripts: Map<Interned, ScriptView>,
    output: ItemStack,
    instants: Seq<u64>,
    n: nat,
)
    requires
        producer_beside_storage(listing, ids, scripts, output),
        n <= instants.len(),
    ensures
        producer_beside_storage(after_run(listing, ids, scripts, instants, n), ids, scripts, output),
        count_in(
            buffer_of(after_run(listing, ids, scripts, instants, n)[1].1.data, ids),
            output.item.id,
        ) == filled(count_in(buffer_of(listing[1].1.data, ids), output.item.id), output.amount, n),
        forall|other: Interned|
            other != output.item.id ==> count_in(
                buffer_of(after_run(listing, ids, scripts, instants, n)[1].1.data, ids),
                other,
            ) == count_in(buffer_of(listing[1].1.data, ids), other),
        records_of_run(listing, ids, scripts, instants, n).len() == n,
        forall|k: int|
            0 <= k < n ==> #[trigger] records_of_run(listing, ids, scripts, instants, n)[k] == (
            TransactionRecord {
                source: producer_place(),
                dest: storage_place(),
                stack: output,
                instant: instants[k],
            }),
    decreases n,
{
    if n > 0 {
        let m = (n - 1) as nat;
        law_producer_fills_storage(listing, ids, scripts, output, instants, m);
        let before = after_run(listing, ids, scripts, instants, m);
        let env = TickEnv { ids, scripts, instant: instants[n - 1] };
        lemma_one_tick(before, env, output);
        assert(m * output.amount + output.amount == n * output.amount) by (nonlinear_arith)
            requires
                m + 1 == n,
        ;
        assert(0 <= m * output.amount) by (nonlinear_arith);
    }
}

} // verus!
