//! The bytes of a saved map: how each part is written, and how it is read
//! back.
//!
//! Numbers are four bytes, least significant first; the time of saving is
//! eight. A coordinate component is written as its distance from the least
//! `i32`. A text is the number of its UTF-8 bytes and then the bytes. A part
//! that may be missing starts with a byte that is 1 where the part follows
//! and 0 where it does not. A list is the number of its items and then the
//! items.

use crate::coord::TileCoord;
use crate::inventory::ItemAmount;
use crate::script::{raw_stack_views, ItemStackRaw};
use vstd::bytes::{
    lemma_auto_spec_u32_to_from_le_bytes, lemma_auto_spec_u64_to_from_le_bytes,
    spec_u32_from_le_bytes, spec_u32_to_le_bytes, spec_u64_from_le_bytes, spec_u64_to_le_bytes,
    u32_from_le_bytes, u32_to_le_bytes, u64_from_le_bytes, u64_to_le_bytes,
};
use vstd::prelude::*;
use vstd::slice::{slice_subrange, slice_to_vec};
use vstd::utf8::{decode_utf8, encode_utf8, encode_utf8_decode_utf8, encode_utf8_valid_utf8, valid_utf8};

verus! {

/// `String::from_utf8`: the string whose bytes are `bytes`, and `None` where
/// `bytes` are no UTF-8.
#[verifier::external_body]
fn string_from_utf8(bytes: Vec<u8>) -> (out: Option<String>)
    ensures
        out is Some <==> valid_utf8(bytes@),
        out matches Some(text) ==> encode_utf8(text@) == bytes@,
{
    String::from_utf8(bytes).ok()
}

/// The bytes of `bytes` from `pos` on.
pub open spec fn tail(bytes: Seq<u8>, pos: int) -> Seq<u8> {
    bytes.subrange(pos, bytes.len() as int)
}

/// The bytes of a number.
pub open spec fn enc_u32(x: u32) -> Seq<u8> {
    spec_u32_to_le_bytes(x)
}

/// The number at the start of `bytes`, and the bytes behind it.
pub open spec fn dec_u32(bytes: Seq<u8>) -> Option<(u32, Seq<u8>)> {
    if bytes.len() >= 4 {
        Some((spec_u32_from_le_bytes(bytes.subrange(0, 4)), tail(bytes, 4)))
    } else {
        None
    }
}

/// A number is four bytes long and is read back as it was written.
pub proof fn lemma_u32(x: u32, rest: Seq<u8>)
    ensures
        enc_u32(x).len() == 4,
        dec_u32(enc_u32(x) + rest) == Some((x, rest)),
{
    lemma_auto_spec_u32_to_from_le_bytes();
    let all = enc_u32(x) + rest;
    assert(all.subrange(0, 4) =~= enc_u32(x));
    assert(tail(all, 4) =~= rest);
}

/// The bytes of a time.
pub open spec fn enc_u64(x: u64) -> Seq<u8> {
    spec_u64_to_le_bytes(x)
}

/// The time at the start of `bytes`, and the bytes behind it.
pub open spec fn dec_u64(bytes: Seq<u8>) -> Option<(u64, Seq<u8>)> {
    if bytes.len() >= 8 {
        Some((spec_u64_from_le_bytes(bytes.subrange(0, 8)), tail(bytes, 8)))
    } else {
        None
    }
}

/// A time is eight bytes long and is read back as it was written.
pub proof fn lemma_u64(x: u64, rest: Seq<u8>)
    ensures
        enc_u64(x).len() == 8,
        dec_u64(enc_u64(x) + rest) == Some((x, rest)),
{
    lemma_auto_spec_u64_to_from_le_bytes();
    let all = enc_u64(x) + rest;
    assert(all.subrange(0, 8) =~= enc_u64(x));
    assert(tail(all, 8) =~= rest);
}

/// The bytes of a coordinate component.
pub open spec fn enc_i32(x: i32) -> Seq<u8> {
    enc_u32((x + 0x8000_0000) as u32)
}

/// The coordinate component at the start of `bytes`, and the bytes behind it.
pub open spec fn dec_i32(bytes: Seq<u8>) -> Option<(i32, Seq<u8>)> {
    match dec_u32(bytes) {
        Some((u, rest)) => Some(((u - 0x8000_0000) as i32, rest)),
        None => None,
    }
}

/// A coordinate component is read back as it was written.
pub proof fn lemma_i32(x: i32, rest: Seq<u8>)
    ensures
        enc_i32(x).len() == 4,
        dec_i32(enc_i32(x) + rest) == Some((x, rest)),
{
    lemma_u32((x + 0x8000_0000) as u32, rest);
}

/// The bytes of a coordinate.
pub open spec fn enc_coord(coord: TileCoord) -> Seq<u8> {
    enc_i32(coord.q) + enc_i32(coord.r)
}

/// The coordinate at the start of `bytes`, and the bytes behind it.
pub open spec fn dec_coord(bytes: Seq<u8>) -> Option<(TileCoord, Seq<u8>)> {
    match dec_i32(bytes) {
        Some((q, rest)) => match dec_i32(rest) {
            Some((r, rest)) => Some((TileCoord { q, r }, rest)),
            None => None,
        },
        None => None,
    }
}

/// A coordinate is read back as it was written.
pub proof fn lemma_coord(coord: TileCoord, rest: Seq<u8>)
    ensures
        dec_coord(enc_coord(coord) + rest) == Some((coord, rest)),
{
    assert(enc_coord(coord) + rest =~= enc_i32(coord.q) + (enc_i32(coord.r) + rest));
    lemma_i32(coord.q, enc_i32(coord.r) + rest);
    lemma_i32(coord.r, rest);
}

/// Whether the number of the UTF-8 bytes of `text` can be written.
pub open spec fn text_fits(text: Seq<char>) -> bool {
    encode_utf8(text).len() <= u32::MAX
}

/// The bytes of a text.
pub open spec fn enc_text(text: Seq<char>) -> Seq<u8> {
    enc_u32(encode_utf8(text).len() as u32) + encode_utf8(text)
}

/// The text at the start of `bytes`, and the bytes behind it.
pub open spec fn dec_text(bytes: Seq<u8>) -> Option<(Seq<char>, Seq<u8>)> {
    match dec_u32(bytes) {
        Some((n, rest)) => if n <= rest.len() && valid_utf8(rest.subrange(0, n as int)) {
            Some((decode_utf8(rest.subrange(0, n as int)), tail(rest, n as int)))
        } else {
            None
        },
        None => None,
    }
}

/// A text is read back as it was written.
pub proof fn lemma_text(text: Seq<char>, rest: Seq<u8>)
    requires
        text_fits(text),
    ensures
        dec_text(enc_text(text) + rest) == Some((text, rest)),
{
    let body = encode_utf8(text);
    let n = body.len() as u32;
    assert(enc_text(text) + rest =~= enc_u32(n) + (body + rest));
    lemma_u32(n, body + rest);
    assert((body + rest).subrange(0, n as int) =~= body);
    assert(tail(body + rest, n as int) =~= rest);
    encode_utf8_valid_utf8(text);
    encode_utf8_decode_utf8(text);
}

/// The bytes of a coordinate that may be missing.
pub open spec fn enc_opt_coord(coord: Option<TileCoord>) -> Seq<u8> {
    match coord {
        Some(c) => seq![1u8] + enc_coord(c),
        None => seq![0u8],
    }
}

/// The coordinate that may be missing at the start of `bytes`, and the bytes
/// behind it.
pub open spec fn dec_opt_coord(bytes: Seq<u8>) -> Option<(Option<TileCoord>, Seq<u8>)> {
    if bytes.len() == 0 {
        None
    } else if bytes[0] == 0 {
        Some((None, tail(bytes, 1)))
    } else if bytes[0] == 1 {
        match dec_coord(tail(bytes, 1)) {
            Some((c, rest)) => Some((Some(c), rest)),
            None => None,
        }
    } else {
        None
    }
}

/// A coordinate that may be missing is read back as it was written.
pub proof fn lemma_opt_coord(coord: Option<TileCoord>, rest: Seq<u8>)
    ensures
        dec_opt_coord(enc_opt_coord(coord) + rest) == Some((coord, rest)),
{
    let all = enc_opt_coord(coord) + rest;
    match coord {
        Some(c) => {
            assert(tail(all, 1) =~= enc_coord(c) + rest);
            lemma_coord(c, rest);
        },
        None => {
            assert(tail(all, 1) =~= rest);
        },
    }
}

/// The bytes of a text that may be missing.
pub open spec fn enc_opt_text(text: Option<Seq<char>>) -> Seq<u8> {
    match text {
        Some(t) => seq![1u8] + enc_text(t),
        None => seq![0u8],
    }
}

/// The text that may be missing at the start of `bytes`, and the bytes behind
/// it.
pub open spec fn dec_opt_text(bytes: Seq<u8>) -> Option<(Option<Seq<char>>, Seq<u8>)> {
    if bytes.len() == 0 {
        None
    } else if bytes[0] == 0 {
        Some((None, tail(bytes, 1)))
    } else if bytes[0] == 1 {
        match dec_text(tail(bytes, 1)) {
            Some((t, rest)) => Some((Some(t), rest)),
            None => None,
        }
    } else {
        None
    }
}

/// A text that may be missing is read back as it was written.
pub proof fn lemma_opt_text(text: Option<Seq<char>>, rest: Seq<u8>)
    requires
        text matches Some(t) ==> text_fits(t),
    ensures
        dec_opt_text(enc_opt_text(text) + rest) == Some((text, rest)),
{
    let all = enc_opt_text(text) + rest;
    match text {
        Some(t) => {
            assert(tail(all, 1) =~= enc_text(t) + rest);
            lemma_text(t, rest);
        },
        None => {
            assert(tail(all, 1) =~= rest);
        },
    }
}

/// Writes a number behind `out`.
pub fn put_u32(out: &mut Vec<u8>, x: u32)
    ensures
        final(out)@ == old(out)@ + enc_u32(x),
{
    let mut bytes = u32_to_le_bytes(x);
    out.append(&mut bytes);
}

/// Writes a time behind `out`.
pub fn put_u64(out: &mut Vec<u8>, x: u64)
    ensures
        final(out)@ == old(out)@ + enc_u64(x),
{
    let mut bytes = u64_to_le_bytes(x);
    out.append(&mut bytes);
}

/// Writes a coordinate component behind `out`.
pub fn put_i32(out: &mut Vec<u8>, x: i32)
    ensures
        final(out)@ == old(out)@ + enc_i32(x),
{
    put_u32(out, (x as i64 + 0x8000_0000) as u32);
}

/// Writes a coordinate behind `out`.
pub fn put_coord(out: &mut Vec<u8>, coord: TileCoord)
    ensures
        final(out)@ == old(out)@ + enc_coord(coord),
{
    put_i32(out, coord.q);
    put_i32(out, coord.r);
    assert(out@ =~= old(out)@ + enc_coord(coord));
}

/// Writes a text behind `out`, where the number of its bytes can be written;
/// says whether it did.
pub fn put_text(out: &mut Vec<u8>, text: &str) -> (ok: bool)
    ensures
        ok == text_fits(text@),
        ok ==> final(out)@ == old(out)@ + enc_text(text@),
        !ok ==> final(out)@ == old(out)@,
{
    let mut bytes = text.as_bytes_vec();
    if bytes.len() > 0xFFFF_FFFF {
        return false;
    }
    put_u32(out, bytes.len() as u32);
    out.append(&mut bytes);
    assert(out@ =~= old(out)@ + enc_text(text@));
    true
}

/// Writes a coordinate that may be missing behind `out`.
pub fn put_opt_coord(out: &mut Vec<u8>, coord: Option<TileCoord>)
    ensures
        final(out)@ == old(out)@ + enc_opt_coord(coord),
{
    match coord {
        Some(c) => {
            out.push(1);
            put_coord(out, c);
            assert(out@ =~= old(out)@ + enc_opt_coord(coord));
        },
        None => {
            out.push(0);
            assert(out@ =~= old(out)@ + enc_opt_coord(coord));
        },
    }
}

/// Writes a text that may be missing behind `out`, where the number of its
/// bytes can be written; says whether it did.
pub fn put_opt_text(out: &mut Vec<u8>, text: &Option<String>) -> (ok: bool)
    ensures
        ok == (text matches Some(t) ==> text_fits(t@)),
        ok ==> final(out)@ == old(out)@ + enc_opt_text(
            match text {
                Some(t) => Some(t@),
                None => None,
            },
        ),
{
    match text {
        Some(t) => {
            let ghost before = out@;
            out.push(1);
            let ok = put_text(out, t.as_str());
            proof {
                if ok {
                    assert(out@ =~= before + (seq![1u8] + enc_text(t@)));
                }
            }
            ok
        },
        None => {
            out.push(0);
            assert(out@ =~= old(out)@ + seq![0u8]);
            true
        },
    }
}

/// Reads the number that starts at `pos`; gives it with the place behind it.
pub fn get_u32(bytes: &[u8], pos: usize) -> (out: Option<(u32, usize)>)
    requires
        pos <= bytes@.len(),
    ensures
        out is Some <==> dec_u32(tail(bytes@, pos as int)) is Some,
        out matches Some((x, next)) ==> pos <= next <= bytes@.len() && dec_u32(
            tail(bytes@, pos as int),
        ) == Some((x, tail(bytes@, next as int))),
{
    if bytes.len() - pos < 4 {
        return None;
    }
    let x = u32_from_le_bytes(slice_subrange(bytes, pos, pos + 4));
    proof {
        assert(tail(bytes@, pos as int).subrange(0, 4) =~= bytes@.subrange(
            pos as int,
            pos as int + 4,
        ));
        assert(tail(tail(bytes@, pos as int), 4) =~= tail(bytes@, pos as int + 4));
    }
    Some((x, pos + 4))
}

/// Reads the time that starts at `pos`; gives it with the place behind it.
pub fn get_u64(bytes: &[u8], pos: usize) -> (out: Option<(u64, usize)>)
    requires
        pos <= bytes@.len(),
    ensures
        out is Some <==> dec_u64(tail(bytes@, pos as int)) is Some,
        out matches Some((x, next)) ==> pos <= next <= bytes@.len() && dec_u64(
            tail(bytes@, pos as int),
        ) == Some((x, tail(bytes@, next as int))),
{
    if bytes.len() - pos < 8 {
        return None;
    }
    let x = u64_from_le_bytes(slice_subrange(bytes, pos, pos + 8));
    proof {
        assert(tail(bytes@, pos as int).subrange(0, 8) =~= bytes@.subrange(
            pos as int,
            pos as int + 8,
        ));
        assert(tail(tail(bytes@, pos as int), 8) =~= tail(bytes@, pos as int + 8));
    }
    Some((x, pos + 8))
}

/// Reads the coordinate component that starts at `pos`; gives it with the
/// place behind it.
pub fn get_i32(bytes: &[u8], pos: usize) -> (out: Option<(i32, usize)>)
    requires
        pos <= bytes@.len(),
    ensures
        out is Some <==> dec_i32(tail(bytes@, pos as int)) is Some,
        out matches Some((x, next)) ==> pos <= next <= bytes@.len() && dec_i32(
            tail(bytes@, pos as int),
        ) == Some((x, tail(bytes@, next as int))),
{
    match get_u32(bytes, pos) {
        Some((u, next)) => Some(((u as i64 - 0x8000_0000) as i32, next)),
        None => None,
    }
}

/// Reads the coordinate that starts at `pos`; gives it with the place behind
/// it.
pub fn get_coord(bytes: &[u8], pos: usize) -> (out: Option<(TileCoord, usize)>)
    requires
        pos <= bytes@.len(),
    ensures
        out is Some <==> dec_coord(tail(bytes@, pos as int)) is Some,
        out matches Some((c, next)) ==> pos <= next <= bytes@.len() && dec_coord(
            tail(bytes@, pos as int),
        ) == Some((c, tail(bytes@, next as int))),
{
    match get_i32(bytes, pos) {
        Some((q, next)) => match get_i32(bytes, next) {
            Some((r, next)) => Some((TileCoord { q, r }, next)),
            None => None,
        },
        None => None,
    }
}

/// Reads the text that starts at `pos`; gives it with the place behind it.
pub fn get_text(bytes: &[u8], pos: usize) -> (out: Option<(String, usize)>)
    requires
        pos <= bytes@.len(),
    ensures
        out is Some <==> dec_text(tail(bytes@, pos as int)) is Some,
        out matches Some((text, next)) ==> pos <= next <= bytes@.len() && dec_text(
            tail(bytes@, pos as int),
        ) == Some((text@, tail(bytes@, next as int))),
{
    match get_u32(bytes, pos) {
        Some((n, start)) => {
            if n as usize > bytes.len() - start {
                return None;
            }
            let end = start + n as usize;
            let body = slice_to_vec(slice_subrange(bytes, start, end));
            proof {
                assert(tail(bytes@, start as int).subrange(0, n as int) =~= bytes@.subrange(
                    start as int,
                    end as int,
                ));
                assert(tail(tail(bytes@, start as int), n as int) =~= tail(bytes@, end as int));
            }
            match string_from_utf8(body) {
                Some(text) => {
                    proof {
                        encode_utf8_decode_utf8(text@);
                    }
                    Some((text, end))
                },
                None => None,
            }
        },
        None => None,
    }
}

/// Reads the coordinate that may be missing and starts at `pos`; gives it
/// with the place behind it.
pub fn get_opt_coord(bytes: &[u8], pos: usize) -> (out: Option<(Option<TileCoord>, usize)>)
    requires
        pos <= bytes@.len(),
    ensures
        out is Some <==> dec_opt_coord(tail(bytes@, pos as int)) is Some,
        out matches Some((c, next)) ==> pos <= next <= bytes@.len() && dec_opt_coord(
            tail(bytes@, pos as int),
        ) == Some((c, tail(bytes@, next as int))),
{
    if pos >= bytes.len() {
        return None;
    }
    proof {
        assert(tail(tail(bytes@, pos as int), 1) =~= tail(bytes@, pos as int + 1));
    }
    let mark = bytes[pos];
    if mark == 0 {
        Some((None, pos + 1))
    } else if mark == 1 {
        match get_coord(bytes, pos + 1) {
            Some((c, next)) => Some((Some(c), next)),
            None => None,
        }
    } else {
        None
    }
}

/// Reads the text that may be missing and starts at `pos`; gives it with the
/// place behind it.
pub fn get_opt_text(bytes: &[u8], pos: usize) -> (out: Option<(Option<String>, usize)>)
    requires
        pos <= bytes@.len(),
    ensures
        out is Some <==> dec_opt_text(tail(bytes@, pos as int)) is Some,
        out matches Some((t, next)) ==> pos <= next <= bytes@.len() && dec_opt_text(
            tail(bytes@, pos as int),
        ) == Some(
            (
                match t {
                    Some(text) => Some(text@),
                    None => None,
                },
                tail(bytes@, next as int),
            ),
        ),
{
    if pos >= bytes.len() {
        return None;
    }
    proof {
        assert(tail(tail(bytes@, pos as int), 1) =~= tail(bytes@, pos as int + 1));
    }
    let mark = bytes[pos];
    if mark == 0 {
        Some((None, pos + 1))
    } else if mark == 1 {
        match get_text(bytes, pos + 1) {
            Some((t, next)) => Some((Some(t), next)),
            None => None,
        }
    } else {
        None
    }
}

/// The version of the format that is written.
pub const FORMAT_VERSION: u32 = 1;

/// The four bytes that a saved map starts with.
pub open spec fn magic() -> Seq<u8> {
    seq![0x41u8, 0x4Du8, 0x41u8, 0x50u8]
}

/// A tile as it is saved: identifiers by their written form.
#[derive(Debug)]
pub struct SavedTile {
    pub coord: TileCoord,
    pub id: String,
    pub modifier: u32,
    pub inventory: Vec<ItemStackRaw>,
    pub target: Option<TileCoord>,
    pub link: Option<TileCoord>,
    pub script: Option<String>,
}

/// What a saved tile stands for.
pub struct SavedTileView {
    pub coord: TileCoord,
    pub id: Seq<char>,
    pub modifier: u32,
    pub inventory: Seq<(Seq<char>, ItemAmount)>,
    pub target: Option<TileCoord>,
    pub link: Option<TileCoord>,
    pub script: Option<Seq<char>>,
}

/// The view of a text that may be missing.
pub open spec fn opt_text_view(text: Option<String>) -> Option<Seq<char>> {
    match text {
        Some(t) => Some(t@),
        None => None,
    }
}

impl View for SavedTile {
    type V = SavedTileView;

    open spec fn view(&self) -> SavedTileView {
        SavedTileView {
            coord: self.coord,
            id: self.id@,
            modifier: self.modifier,
            inventory: raw_stack_views(self.inventory@),
            target: self.target,
            link: self.link,
            script: opt_text_view(self.script),
        }
    }
}

/// A map as it is saved: the time of saving, and the tiles in the order in
/// which they are written.
#[derive(Debug)]
pub struct SavedMap {
    pub save_time: u64,
    pub tiles: Vec<SavedTile>,
}

/// The views of a list of saved tiles.
pub open spec fn saved_tile_views(tiles: Seq<SavedTile>) -> Seq<SavedTileView> {
    Seq::new(tiles.len(), |i: int| tiles[i]@)
}

impl View for SavedMap {
    type V = (u64, Seq<SavedTileView>);

    open spec fn view(&self) -> (u64, Seq<SavedTileView>) {
        (self.save_time, saved_tile_views(self.tiles@))
    }
}

/// The bytes of a stack.
pub open spec fn enc_stack(stack: (Seq<char>, ItemAmount)) -> Seq<u8> {
    enc_text(stack.0) + enc_u32(stack.1)
}

/// The stack at the start of `bytes`, and the bytes behind it.
pub open spec fn dec_stack(bytes: Seq<u8>) -> Option<((Seq<char>, ItemAmount), Seq<u8>)> {
    match dec_text(bytes) {
        Some((id, rest)) => match dec_u32(rest) {
            Some((amount, rest)) => Some(((id, amount), rest)),
            None => None,
        },
        None => None,
    }
}

/// A stack is read back as it was written.
pub proof fn lemma_stack(stack: (Seq<char>, ItemAmount), rest: Seq<u8>)
    requires
        text_fits(stack.0),
    ensures
        dec_stack(enc_stack(stack) + rest) == Some((stack, rest)),
{
    assert(enc_stack(stack) + rest =~= enc_text(stack.0) + (enc_u32(stack.1) + rest));
    lemma_text(stack.0, enc_u32(stack.1) + rest);
    lemma_u32(stack.1, rest);
}

/// The bytes of the stacks of a list, one after the other.
pub open spec fn enc_stack_list(stacks: Seq<(Seq<char>, ItemAmount)>) -> Seq<u8>
    decreases stacks.len(),
{
    if stacks.len() == 0 {
        Seq::empty()
    } else {
        enc_stack(stacks[0]) + enc_stack_list(stacks.subrange(1, stacks.len() as int))
    }
}

/// The `n` stacks at the start of `bytes`, and the bytes behind them.
pub open spec fn dec_stack_list(bytes: Seq<u8>, n: nat) -> Option<
    (Seq<(Seq<char>, ItemAmount)>, Seq<u8>),
>
    decreases n,
{
    if n == 0 {
        Some((Seq::empty(), bytes))
    } else {
        match dec_stack(bytes) {
            Some((stack, rest)) => match dec_stack_list(rest, (n - 1) as nat) {
                Some((stacks, rest)) => Some((seq![stack] + stacks, rest)),
                None => None,
            },
            None => None,
        }
    }
}

/// Whether every text of `stacks` can be written.
pub open spec fn stack_texts_fit(stacks: Seq<(Seq<char>, ItemAmount)>) -> bool {
    forall|i: int| 0 <= i < stacks.len() ==> text_fits((#[trigger] stacks[i]).0)
}

/// The stacks of a list are read back as they were written.
pub proof fn lemma_stack_list(stacks: Seq<(Seq<char>, ItemAmount)>, rest: Seq<u8>)
    requires
        stack_texts_fit(stacks),
    ensures
        dec_stack_list(enc_stack_list(stacks) + rest, stacks.len()) == Some((stacks, rest)),
    decreases stacks.len(),
{
    if stacks.len() == 0 {
        assert(enc_stack_list(stacks) + rest =~= rest);
        assert(stacks =~= Seq::empty());
    } else {
        let others = stacks.subrange(1, stacks.len() as int);
        assert(enc_stack_list(stacks) + rest =~= enc_stack(stacks[0]) + (enc_stack_list(others)
            + rest));
        assert(text_fits(stacks[0].0));
        lemma_stack(stacks[0], enc_stack_list(others) + rest);
        assert forall|i: int| 0 <= i < others.len() implies text_fits((#[trigger] others[i]).0) by {
            assert(others[i] == stacks[i + 1]);
        }
        lemma_stack_list(others, rest);
        assert(seq![stacks[0]] + others =~= stacks);
    }
}

/// Whether the stacks of an inventory can be written.
pub open spec fn stacks_fit(stacks: Seq<(Seq<char>, ItemAmount)>) -> bool {
    stacks.len() <= u32::MAX && stack_texts_fit(stacks)
}

/// The bytes of an inventory: the number of its stacks, and the stacks.
pub open spec fn enc_stacks(stacks: Seq<(Seq<char>, ItemAmount)>) -> Seq<u8> {
    enc_u32(stacks.len() as u32) + enc_stack_list(stacks)
}

/// The inventory at the start of `bytes`, and the bytes behind it.
pub open spec fn dec_stacks(bytes: Seq<u8>) -> Option<(Seq<(Seq<char>, ItemAmount)>, Seq<u8>)> {
    match dec_u32(bytes) {
        Some((n, rest)) => dec_stack_list(rest, n as nat),
        None => None,
    }
}

/// An inventory is read back as it was written.
pub proof fn lemma_stacks(stacks: Seq<(Seq<char>, ItemAmount)>, rest: Seq<u8>)
    requires
        stacks_fit(stacks),
    ensures
        dec_stacks(enc_stacks(stacks) + rest) == Some((stacks, rest)),
{
    assert(enc_stacks(stacks) + rest =~= enc_u32(stacks.len() as u32) + (enc_stack_list(stacks)
        + rest));
    lemma_u32(stacks.len() as u32, enc_stack_list(stacks) + rest);
    lemma_stack_list(stacks, rest);
}

/// Whether a tile can be written.
pub open spec fn tile_fits(tile: SavedTileView) -> bool {
    &&& text_fits(tile.id)
    &&& stacks_fit(tile.inventory)
    &&& (tile.script matches Some(script) ==> text_fits(script))
}

/// The bytes of a tile.
pub open spec fn enc_tile(tile: SavedTileView) -> Seq<u8> {
    enc_coord(tile.coord) + (enc_text(tile.id) + (enc_u32(tile.modifier) + (enc_stacks(
        tile.inventory,
    ) + (enc_opt_coord(tile.target) + (enc_opt_coord(tile.link) + enc_opt_text(tile.script))))))
}

/// The tile at the start of `bytes`, and the bytes behind it.
pub open spec fn dec_tile(bytes: Seq<u8>) -> Option<(SavedTileView, Seq<u8>)> {
    match dec_coord(bytes) {
        Some((coord, rest)) => match dec_text(rest) {
            Some((id, rest)) => match dec_u32(rest) {
                Some((modifier, rest)) => match dec_stacks(rest) {
                    Some((inventory, rest)) => match dec_opt_coord(rest) {
                        Some((target, rest)) => match dec_opt_coord(rest) {
                            Some((link, rest)) => match dec_opt_text(rest) {
                                Some((script, rest)) => Some(
                                    (
                                        SavedTileView {
                                            coord,
                                            id,
                                            modifier,
                                            inventory,
                                            target,
                                            link,
                                            script,
                                        },
                                        rest,
                                    ),
                                ),
                                None => None,
                            },
                            None => None,
                        },
                        None => None,
                    },
                    None => None,
                },
                None => None,
            },
            None => None,
        },
        None => None,
    }
}

/// A tile is read back as it was written.
pub proof fn lemma_tile(tile: SavedTileView, rest: Seq<u8>)
    requires
        tile_fits(tile),
    ensures
        dec_tile(enc_tile(tile) + rest) == Some((tile, rest)),
{
    let r6 = enc_opt_text(tile.script) + rest;
    let r5 = enc_opt_coord(tile.link) + r6;
    let r4 = enc_opt_coord(tile.target) + r5;
    let r3 = enc_stacks(tile.inventory) + r4;
    let r2 = enc_u32(tile.modifier) + r3;
    let r1 = enc_text(tile.id) + r2;
    assert(enc_tile(tile) + rest =~= enc_coord(tile.coord) + r1);
    lemma_coord(tile.coord, r1);
    lemma_text(tile.id, r2);
    lemma_u32(tile.modifier, r3);
    lemma_stacks(tile.inventory, r4);
    lemma_opt_coord(tile.target, r5);
    lemma_opt_coord(tile.link, r6);
    lemma_opt_text(tile.script, rest);
}

/// The bytes of the tiles of a list, one after the other.
pub open spec fn enc_tile_list(tiles: Seq<SavedTileView>) -> Seq<u8>
    decreases tiles.len(),
{
    if tiles.len() == 0 {
        Seq::empty()
    } else {
        enc_tile(tiles[0]) + enc_tile_list(tiles.subrange(1, tiles.len() as int))
    }
}

/// The `n` tiles at the start of `bytes`, and the bytes behind them.
pub open spec fn dec_tile_list(bytes: Seq<u8>, n: nat) -> Option<(Seq<SavedTileView>, Seq<u8>)>
    decreases n,
{
    if n == 0 {
        Some((Seq::empty(), bytes))
    } else {
        match dec_tile(bytes) {
            Some((tile, rest)) => match dec_tile_list(rest, (n - 1) as nat) {
                Some((tiles, rest)) => Some((seq![tile] + tiles, rest)),
                None => None,
            },
            None => None,
        }
    }
}

/// Whether every tile of `tiles` can be written.
pub open spec fn tiles_fit(tiles: Seq<SavedTileView>) -> bool {
    forall|i: int| 0 <= i < tiles.len() ==> tile_fits(#[trigger] tiles[i])
}

/// The tiles of a list are read back as they were written.
pub proof fn lemma_tile_list(tiles: Seq<SavedTileView>, rest: Seq<u8>)
    requires
        tiles_fit(tiles),
    ensures
        dec_tile_list(enc_tile_list(tiles) + rest, tiles.len()) == Some((tiles, rest)),
    decreases tiles.len(),
{
    if tiles.len() == 0 {
        assert(enc_tile_list(tiles) + rest =~= rest);
        assert(tiles =~= Seq::empty());
    } else {
        let others = tiles.subrange(1, tiles.len() as int);
        assert(enc_tile_list(tiles) + rest =~= enc_tile(tiles[0]) + (enc_tile_list(others) + rest));
        assert(tile_fits(tiles[0]));
        lemma_tile(tiles[0], enc_tile_list(others) + rest);
        assert forall|i: int| 0 <= i < others.len() implies tile_fits(#[trigger] others[i]) by {
            assert(others[i] == tiles[i + 1]);
        }
        lemma_tile_list(others, rest);
        assert(seq![tiles[0]] + others =~= tiles);
    }
}

/// Whether a map can be written.
pub open spec fn map_fits(tiles: Seq<SavedTileView>) -> bool {
    tiles.len() <= u32::MAX && tiles_fit(tiles)
}

/// The bytes of a map: the four bytes that every saved map starts with, the
/// version of the format, the time of saving, the number of tiles, and the
/// tiles.
pub open spec fn enc_map(save_time: u64, tiles: Seq<SavedTileView>) -> Seq<u8> {
    magic() + (enc_u32(FORMAT_VERSION) + (enc_u64(save_time) + (enc_u32(tiles.len() as u32)
        + enc_tile_list(tiles))))
}

/// What `bytes` read as behind the start of a saved map and the version: the
/// time of saving, and the tiles with nothing behind them.
pub open spec fn dec_body(bytes: Seq<u8>) -> Option<(u64, Seq<SavedTileView>)> {
    match dec_u64(bytes) {
        Some((save_time, rest)) => match dec_u32(rest) {
            Some((n, rest)) => match dec_tile_list(rest, n as nat) {
                Some((tiles, rest)) => if rest.len() == 0 {
                    Some((save_time, tiles))
                } else {
                    None
                },
                None => None,
            },
            None => None,
        },
        None => None,
    }
}

/// The map that `bytes` are the saved form of: they start as every saved map
/// does, name the version that is written, and hold the time of saving and
/// the tiles, and nothing behind them.
pub open spec fn dec_map(bytes: Seq<u8>) -> Option<(u64, Seq<SavedTileView>)> {
    if bytes.len() >= 4 && bytes.subrange(0, 4) == magic() {
        match dec_u32(tail(bytes, 4)) {
            Some((version, rest)) => if version == FORMAT_VERSION {
                dec_body(rest)
            } else {
                None
            },
            None => None,
        }
    } else {
        None
    }
}

/// A map is read back as it was written.
pub proof fn lemma_map(save_time: u64, tiles: Seq<SavedTileView>)
    requires
        map_fits(tiles),
    ensures
        dec_map(enc_map(save_time, tiles)) == Some((save_time, tiles)),
{
    let r3 = enc_tile_list(tiles);
    let r2 = enc_u32(tiles.len() as u32) + r3;
    let r1 = enc_u64(save_time) + r2;
    let r0 = enc_u32(FORMAT_VERSION) + r1;
    let all = enc_map(save_time, tiles);
    assert(all.subrange(0, 4) =~= magic());
    assert(tail(all, 4) =~= r0);
    lemma_u32(FORMAT_VERSION, r1);
    lemma_u64(save_time, r2);
    lemma_u32(tiles.len() as u32, r3);
    assert(r3 =~= r3 + Seq::<u8>::empty());
    lemma_tile_list(tiles, Seq::empty());
}

/// What is still to be read of a list, with what was read before it.
pub open spec fn with_front<T>(front: Seq<T>, back: Option<(Seq<T>, Seq<u8>)>) -> Option<
    (Seq<T>, Seq<u8>),
> {
    match back {
        Some((items, rest)) => Some((front + items, rest)),
        None => None,
    }
}

/// Writes a stack behind `out`, where its text can be written; says whether
/// it did.
pub fn put_stack(out: &mut Vec<u8>, stack: &ItemStackRaw) -> (ok: bool)
    ensures
        ok == text_fits(stack@.0),
        ok ==> final(out)@ == old(out)@ + enc_stack(stack@),
{
    if !put_text(out, stack.id.as_str()) {
        return false;
    }
    put_u32(out, stack.amount);
    assert(out@ =~= old(out)@ + enc_stack(stack@));
    true
}

/// Writes an inventory behind `out`, where it can be written; says whether
/// it did.
pub fn put_stacks(out: &mut Vec<u8>, stacks: &Vec<ItemStackRaw>) -> (ok: bool)
    ensures
        ok == stacks_fit(raw_stack_views(stacks@)),
        ok ==> final(out)@ == old(out)@ + enc_stacks(raw_stack_views(stacks@)),
{
    let ghost views = raw_stack_views(stacks@);
    let n = stacks.len();
    if n > 0xFFFF_FFFF {
        return false;
    }
    put_u32(out, n as u32);
    let ghost start = out@;
    let mut i: usize = 0;
    proof {
        assert(views.subrange(0, n as int) =~= views);
    }
    while i < n
        invariant
            n == stacks@.len(),
            i <= n,
            views == raw_stack_views(stacks@),
            forall|k: int| 0 <= k < i ==> text_fits((#[trigger] views[k]).0),
            start + enc_stack_list(views) == out@ + enc_stack_list(views.subrange(i as int, n as int)),
        decreases n - i,
    {
        let ghost before = out@;
        let ghost left = views.subrange(i as int, n as int);
        proof {
            assert(left[0] == views[i as int]);
            assert(left.subrange(1, left.len() as int) =~= views.subrange(i as int + 1, n as int));
        }
        if !put_stack(out, &stacks[i]) {
            assert(!text_fits(views[i as int].0));
            return false;
        }
        proof {
            assert(out@ + enc_stack_list(views.subrange(i as int + 1, n as int)) =~= before
                + enc_stack_list(left));
        }
        i = i + 1;
    }
    proof {
        assert(views.subrange(n as int, n as int) =~= Seq::empty());
        assert(out@ =~= start + enc_stack_list(views));
        assert(views.subrange(0, n as int) =~= views);
        assert(out@ =~= old(out)@ + enc_stacks(views));
    }
    true
}

/// Seven parts written one after the other behind `a` are their joined bytes
/// behind `a`.
proof fn lemma_join(
    a: Seq<u8>,
    b: Seq<u8>,
    c: Seq<u8>,
    d: Seq<u8>,
    e: Seq<u8>,
    f: Seq<u8>,
    g: Seq<u8>,
    h: Seq<u8>,
)
    ensures
        ((((((a + b) + c) + d) + e) + f) + g) + h == a + (b + (c + (d + (e + (f + (g + h)))))),
{
    assert(((((((a + b) + c) + d) + e) + f) + g) + h =~= a + (b + (c + (d + (e + (f + (g + h)))))));
}

/// Writes a tile behind `out`, where it can be written; says whether it did.
pub fn put_tile(out: &mut Vec<u8>, tile: &SavedTile) -> (ok: bool)
    ensures
        ok == tile_fits(tile@),
        ok ==> final(out)@ == old(out)@ + enc_tile(tile@),
{
    let ghost view = tile@;
    put_coord(out, tile.coord);
    if !put_text(out, tile.id.as_str()) {
        return false;
    }
    put_u32(out, tile.modifier);
    if !put_stacks(out, &tile.inventory) {
        return false;
    }
    put_opt_coord(out, tile.target);
    put_opt_coord(out, tile.link);
    if !put_opt_text(out, &tile.script) {
        return false;
    }
    proof {
        lemma_join(
            old(out)@,
            enc_coord(view.coord),
            enc_text(view.id),
            enc_u32(view.modifier),
            enc_stacks(view.inventory),
            enc_opt_coord(view.target),
            enc_opt_coord(view.link),
            enc_opt_text(view.script),
        );
    }
    true
}

/// The bytes of `map`; `None` where the map cannot be written.
pub fn encode_map(map: &SavedMap) -> (out: Option<Vec<u8>>)
    ensures
        out is Some <==> map_fits(map@.1),
        out matches Some(bytes) ==> bytes@ == enc_map(map@.0, map@.1),
{
    let ghost views = map@.1;
    let n = map.tiles.len();
    if n > 0xFFFF_FFFF {
        return None;
    }
    let mut out: Vec<u8> = Vec::new();
    out.push(0x41);
    out.push(0x4D);
    out.push(0x41);
    out.push(0x50);
    put_u32(&mut out, FORMAT_VERSION);
    put_u64(&mut out, map.save_time);
    put_u32(&mut out, n as u32);
    let ghost start = out@;
    let mut i: usize = 0;
    proof {
        assert(views.subrange(0, n as int) =~= views);
    }
    while i < n
        invariant
            n == map.tiles@.len(),
            i <= n,
            views == map@.1,
            forall|k: int| 0 <= k < i ==> tile_fits(#[trigger] views[k]),
            start + enc_tile_list(views) == out@ + enc_tile_list(views.subrange(i as int, n as int)),
        decreases n - i,
    {
        let ghost before = out@;
        let ghost left = views.subrange(i as int, n as int);
        proof {
            assert(left[0] == views[i as int]);
            assert(left.subrange(1, left.len() as int) =~= views.subrange(i as int + 1, n as int));
        }
        if !put_tile(&mut out, &map.tiles[i]) {
            assert(!tile_fits(views[i as int]));
            return None;
        }
        proof {
            assert(out@ + enc_tile_list(views.subrange(i as int + 1, n as int)) =~= before
                + enc_tile_list(left));
        }
        i = i + 1;
    }
    proof {
        assert(views.subrange(n as int, n as int) =~= Seq::empty());
        assert(out@ =~= start + enc_tile_list(views));
        assert(start =~= magic() + (enc_u32(FORMAT_VERSION) + (enc_u64(map.save_time) + enc_u32(
            n as u32,
        ))));
        assert(out@ =~= enc_map(map.save_time, views));
    }
    Some(out)
}

/// Reads the stack that starts at `pos`; gives it with the place behind it.
pub fn get_stack(bytes: &[u8], pos: usize) -> (out: Option<(ItemStackRaw, usize)>)
    requires
        pos <= bytes@.len(),
    ensures
        out is Some <==> dec_stack(tail(bytes@, pos as int)) is Some,
        out matches Some((stack, next)) ==> pos <= next <= bytes@.len() && dec_stack(
            tail(bytes@, pos as int),
        ) == Some((stack@, tail(bytes@, next as int))),
{
    match get_text(bytes, pos) {
        Some((id, next)) => match get_u32(bytes, next) {
            Some((amount, next)) => Some((ItemStackRaw { id, amount }, next)),
            None => None,
        },
        None => None,
    }
}

/// Reads the inventory that starts at `pos`; gives it with the place behind
/// it.
pub fn get_stacks(bytes: &[u8], pos: usize) -> (out: Option<(Vec<ItemStackRaw>, usize)>)
    requires
        pos <= bytes@.len(),
    ensures
        out is Some <==> dec_stacks(tail(bytes@, pos as int)) is Some,
        out matches Some((stacks, next)) ==> pos <= next <= bytes@.len() && dec_stacks(
            tail(bytes@, pos as int),
        ) == Some((raw_stack_views(stacks@), tail(bytes@, next as int))),
{
    let (n, start) = match get_u32(bytes, pos) {
        Some(found) => found,
        None => {
            return None;
        },
    };
    let mut stacks: Vec<ItemStackRaw> = Vec::new();
    let mut at = start;
    let mut i: u32 = 0;
    while i < n
        invariant
            i <= n,
            start <= at <= bytes@.len(),
            stacks@.len() == i,
            dec_stacks(tail(bytes@, pos as int)) == dec_stack_list(
                tail(bytes@, start as int),
                n as nat,
            ),
            dec_stack_list(tail(bytes@, start as int), n as nat) == with_front(
                raw_stack_views(stacks@),
                dec_stack_list(tail(bytes@, at as int), (n - i) as nat),
            ),
        decreases n - i,
    {
        let ghost front = raw_stack_views(stacks@);
        match get_stack(bytes, at) {
            Some((stack, next)) => {
                proof {
                    let back = dec_stack_list(tail(bytes@, next as int), (n - i - 1) as nat);
                    if back is Some {
                        assert(front + (seq![stack@] + back->Some_0.0) =~= front.push(stack@)
                            + back->Some_0.0);
                    }
                }
                stacks.push(stack);
                proof {
                    assert(raw_stack_views(stacks@) =~= front.push(stack@));
                }
                at = next;
            },
            None => {
                return None;
            },
        }
        i = i + 1;
    }
    proof {
        assert(raw_stack_views(stacks@) + Seq::empty() =~= raw_stack_views(stacks@));
    }
    Some((stacks, at))
}

/// Reads the tile that starts at `pos`; gives it with the place behind it.
pub fn get_tile(bytes: &[u8], pos: usize) -> (out: Option<(SavedTile, usize)>)
    requires
        pos <= bytes@.len(),
    ensures
        out is Some <==> dec_tile(tail(bytes@, pos as int)) is Some,
        out matches Some((tile, next)) ==> pos <= next <= bytes@.len() && dec_tile(
            tail(bytes@, pos as int),
        ) == Some((tile@, tail(bytes@, next as int))),
{
    let (coord, next) = match get_coord(bytes, pos) {
        Some(found) => found,
        None => {
            return None;
        },
    };
    let (id, next) = match get_text(bytes, next) {
        Some(found) => found,
        None => {
            return None;
        },
    };
    let (modifier, next) = match get_u32(bytes, next) {
        Some(found) => found,
        None => {
            return None;
        },
    };
    let (inventory, next) = match get_stacks(bytes, next) {
        Some(found) => found,
        None => {
            return None;
        },
    };
    let (target, next) = match get_opt_coord(bytes, next) {
        Some(found) => found,
        None => {
            return None;
        },
    };
    let (link, next) = match get_opt_coord(bytes, next) {
        Some(found) => found,
        None => {
            return None;
        },
    };
    let (script, next) = match get_opt_text(bytes, next) {
        Some(found) => found,
        None => {
            return None;
        },
    };
    Some((SavedTile { coord, id, modifier, inventory, target, link, script }, next))
}

/// The map that `bytes` are the saved form of; `None` where they are the
/// saved form of none.
pub fn decode_map(bytes: &[u8]) -> (out: Option<SavedMap>)
    ensures
        (match out {
            Some(map) => Some(map@),
            None => None,
        }) == dec_map(bytes@),
{
    if bytes.len() < 4 {
        return None;
    }
    if bytes[0] != 0x41 || bytes[1] != 0x4D || bytes[2] != 0x41 || bytes[3] != 0x50 {
        assert(bytes@.subrange(0, 4)[0] == bytes@[0]);
        assert(bytes@.subrange(0, 4)[1] == bytes@[1]);
        assert(bytes@.subrange(0, 4)[2] == bytes@[2]);
        assert(bytes@.subrange(0, 4)[3] == bytes@[3]);
        return None;
    }
    assert(bytes@.subrange(0, 4) =~= magic());
    let (version, next) = match get_u32(bytes, 4) {
        Some(found) => found,
        None => {
            return None;
        },
    };
    if version != FORMAT_VERSION {
        return None;
    }
    let (save_time, next) = match get_u64(bytes, next) {
        Some(found) => found,
        None => {
            return None;
        },
    };
    let (n, start) = match get_u32(bytes, next) {
        Some(found) => found,
        None => {
            return None;
        },
    };
    let mut tiles: Vec<SavedTile> = Vec::new();
    let mut at = start;
    let mut i: u32 = 0;
    while i < n
        invariant
            i <= n,
            start <= at <= bytes@.len(),
            tiles@.len() == i,
            dec_map(bytes@) == (match dec_tile_list(tail(bytes@, start as int), n as nat) {
                Some((found, rest)) => if rest.len() == 0 {
                    Some((save_time, found))
                } else {
                    None
                },
                None => None,
            }),
            dec_tile_list(tail(bytes@, start as int), n as nat) == with_front(
                saved_tile_views(tiles@),
                dec_tile_list(tail(bytes@, at as int), (n - i) as nat),
            ),
        decreases n - i,
    {
        let ghost front = saved_tile_views(tiles@);
        match get_tile(bytes, at) {
            Some((tile, next)) => {
                proof {
                    let back = dec_tile_list(tail(bytes@, next as int), (n - i - 1) as nat);
                    if back is Some {
                        assert(front + (seq![tile@] + back->Some_0.0) =~= front.push(tile@)
                            + back->Some_0.0);
                    }
                }
                tiles.push(tile);
                proof {
                    assert(saved_tile_views(tiles@) =~= front.push(tile@));
                }
                at = next;
            },
            None => {
                return None;
            },
        }
        i = i + 1;
    }
    let map = SavedMap { save_time, tiles };
    proof {
        assert(map@.1 + Seq::empty() =~= map@.1);
    }
    if at != bytes.len() {
        return None;
    }
    Some(map)
}

} // verus!
