//! Compression of the datagrams a host sends and receives, and ENet's own compressor: an
//! adaptive range coder over an order-2 context model.
use vstd::prelude::*;

verus! {

/// An interface for compressing ENet datagrams, implemented by the host's user.
pub trait Compressor {
    /// Compress the incoming buffers, of `in_limit` bytes in all, into `out`; returns the
    /// compressed length, or 0 when compression failed or did not pay off.
    fn compress(&mut self, in_buffers: Vec<&[u8]>, in_limit: usize, out: &mut [u8]) -> usize;

    /// Decompress `in_data` into `out`; returns the decompressed length, or 0 on failure.
    fn decompress(&mut self, in_data: &[u8], out: &mut [u8]) -> usize;
}

/// The number of symbols a range coder holds.
pub const RANGE_CODER_SYMBOLS: usize = 4096;
/// The range below which the coder's range is renormalised.
pub const RANGE_CODER_BOTTOM: u32 = 65536;
/// The range at which the top byte of the coder's low end is settled.
pub const RANGE_CODER_TOP: u32 = 16777216;
/// The count every byte has in the order-0 context before it is seen.
pub const CONTEXT_SYMBOL_MINIMUM: u16 = 1;
/// The escape count of a fresh order-0 context.
pub const CONTEXT_ESCAPE_MINIMUM: u16 = 1;
/// How much a byte's count grows in the order-0 context each time it is coded.
pub const CONTEXT_SYMBOL_DELTA: u8 = 3;
/// The order of the highest context.
pub const SUBCONTEXT_ORDER: usize = 2;
/// How much a byte's count grows in a higher context each time it is coded.
pub const SUBCONTEXT_SYMBOL_DELTA: u8 = 2;
/// How much a higher context's escape count grows each time it escapes.
pub const SUBCONTEXT_ESCAPE_DELTA: u16 = 5;
/// The most shifts a decoder's renormalisation takes before the input is taken as corrupt.
pub const DECODER_MAXIMUM_SHIFTS: u32 = 64;

/// A node of the range coder's context model: a byte value with its count and the total
/// count of its left subtree (`under`), links to its children as forward offsets, and, as a
/// context, the offset of its tree of symbols, its escape and total counts, and the symbol
/// of the next lower context (`parent`).
#[derive(Debug, Clone, Copy, PartialEq, Eq, Structural)]
pub struct Symbol {
    pub value: u8,
    pub count: u8,
    pub under: u16,
    pub left: u16,
    pub right: u16,
    pub symbols: u16,
    pub escapes: u16,
    pub total: u16,
    pub parent: u16,
}

impl Symbol {
    /// A fresh order-0 context (see [`Symbol::root`]).
    pub open spec fn spec_root() -> Symbol {
        Symbol {
            value: 0,
            count: 0,
            under: 0,
            left: 0,
            right: 0,
            symbols: 0,
            escapes: CONTEXT_ESCAPE_MINIMUM,
            total: (CONTEXT_ESCAPE_MINIMUM + 256 * CONTEXT_SYMBOL_MINIMUM) as u16,
            parent: 0,
        }
    }

    /// A symbol for `value`, seen once, counted `delta` (see [`Symbol::leaf`]).
    pub open spec fn spec_leaf(value: u8, delta: u8) -> Symbol {
        Symbol {
            value,
            count: delta,
            under: delta as u16,
            left: 0,
            right: 0,
            symbols: 0,
            escapes: 0,
            total: 0,
            parent: 0,
        }
    }

    /// A symbol for `value`, seen once, counted `delta`.
    pub fn leaf(value: u8, delta: u8) -> (s: Symbol)
        ensures
            s == Symbol::spec_leaf(value, delta),
    {
        Symbol {
            value,
            count: delta,
            under: delta as u16,
            left: 0,
            right: 0,
            symbols: 0,
            escapes: 0,
            total: 0,
            parent: 0,
        }
    }

    /// A fresh order-0 context: no symbols yet, the minimum escape count, and a total that
    /// gives each of the 256 bytes the minimum count.
    pub fn root() -> (s: Symbol)
        ensures
            s == (Symbol {
                value: 0,
                count: 0,
                under: 0,
                left: 0,
                right: 0,
                symbols: 0,
                escapes: CONTEXT_ESCAPE_MINIMUM,
                total: (CONTEXT_ESCAPE_MINIMUM + 256 * CONTEXT_SYMBOL_MINIMUM) as u16,
                parent: 0,
            }),
    {
        Symbol {
            value: 0,
            count: 0,
            under: 0,
            left: 0,
            right: 0,
            symbols: 0,
            escapes: CONTEXT_ESCAPE_MINIMUM,
            total: CONTEXT_ESCAPE_MINIMUM + 256 * CONTEXT_SYMBOL_MINIMUM,
            parent: 0,
        }
    }

    /// An unused symbol.
    pub fn empty() -> (s: Symbol)
        ensures
            s == (Symbol {
                value: 0,
                count: 0,
                under: 0,
                left: 0,
                right: 0,
                symbols: 0,
                escapes: 0,
                total: 0,
                parent: 0,
            }),
    {
        Symbol { value: 0, count: 0, under: 0, left: 0, right: 0, symbols: 0, escapes: 0, total: 0, parent: 0 }
    }
}

/// Where the index of the next symbol found goes: the predicted context, or the parent
/// link of the symbol found in the context above.
#[derive(Debug, Clone, Copy, PartialEq, Eq, Structural)]
enum Slot {
    Predicted,
    ParentOf(usize),
}

/// Store `v` in `slot`.
fn set_slot(s: &mut Vec<Symbol>, predicted: &mut u16, slot: Slot, v: u16)
    requires
        old(s)@.len() == RANGE_CODER_SYMBOLS,
    ensures
        final(s)@.len() == RANGE_CODER_SYMBOLS,
        match slot {
            Slot::Predicted => *final(predicted) == v && final(s)@ == old(s)@,
            Slot::ParentOf(i) => *final(predicted) == *old(predicted) && final(s)@ == if i
                < RANGE_CODER_SYMBOLS {
                old(s)@.update(i as int, Symbol { parent: v, ..old(s)@[i as int] })
            } else {
                old(s)@
            },
        },
{
    match slot {
        Slot::Predicted => {
            *predicted = v;
        },
        Slot::ParentOf(i) => {
            if i < s.len() {
                let mut sym = s[i];
                sym.parent = v;
                s.set(i, sym);
            }
        },
    }
}

/// Halve the counts of the symbols of the tree at `start` (the tree of a context), keeping
/// each symbol's `under` the total of its left subtree and itself; returns the tree's new
/// total, or `None` when a link leads out of the model.
fn rescale(s: &mut Vec<Symbol>, start: usize) -> (r: Option<u16>)
    requires
        old(s)@.len() == RANGE_CODER_SYMBOLS,
        start < RANGE_CODER_SYMBOLS + 0x10000,
    ensures
        final(s)@.len() == RANGE_CODER_SYMBOLS,
        forall|k: int| 0 <= k < start ==> #[trigger] final(s)@[k] == old(s)@[k],
        start >= RANGE_CODER_SYMBOLS ==> r is None && final(s)@ == old(s)@,
        start < RANGE_CODER_SYMBOLS ==> final(s)@[start as int].count == old(s)@[start as int].count
            - old(s)@[start as int].count / 2,
    decreases RANGE_CODER_SYMBOLS + 0x10000 - start,
{
    let mut total: u16 = 0;
    let mut i = start;
    loop
        invariant
            s@.len() == RANGE_CODER_SYMBOLS,
            start <= i < RANGE_CODER_SYMBOLS + 0x10000,
            forall|k: int| 0 <= k < start ==> #[trigger] s@[k] == old(s)@[k],
            i == start ==> s@ == old(s)@,
            i > start ==> start < RANGE_CODER_SYMBOLS && s@[start as int].count == old(s)@[start as int].count
                - old(s)@[start as int].count / 2,
        decreases RANGE_CODER_SYMBOLS + 0x10000 - i,
    {
        if i >= RANGE_CODER_SYMBOLS {
            return None;
        }
        let mut sym = s[i];
        sym.count = sym.count - sym.count / 2;
        sym.under = sym.count as u16;
        s.set(i, sym);
        if sym.left != 0 {
            match rescale(s, i + sym.left as usize) {
                None => {
                    return None;
                },
                Some(u) => {
                    let mut again = s[i];
                    again.under = again.under.wrapping_add(u);
                    s.set(i, again);
                },
            }
        }
        let sym = s[i];
        total = total.wrapping_add(sym.under);
        if sym.right == 0 {
            return Some(total);
        }
        i = i + sym.right as usize;
    }
}

/// Rescale context `ctx` when its total or the count just coded grew past their bounds:
/// the counts of its symbols are halved, and so is its escape count. `extra` is what the
/// context's total holds beyond its symbols and escapes.
fn rescale_context(s: &mut Vec<Symbol>, ctx: usize, count: u16, count_limit: u16, extra: u16) -> (ok: bool)
    requires
        old(s)@.len() == RANGE_CODER_SYMBOLS,
        ctx < RANGE_CODER_SYMBOLS,
    ensures
        final(s)@.len() == RANGE_CODER_SYMBOLS,
        !(count > count_limit || old(s)@[ctx as int].total > RANGE_CODER_BOTTOM - 0x100) ==> ok
            && final(s)@ == old(s)@,
        (count > count_limit || old(s)@[ctx as int].total > RANGE_CODER_BOTTOM - 0x100) && ok ==> {
            let c = old(s)@[ctx as int];
            let e = (c.escapes - c.escapes / 2) as u16;
            &&& final(s)@[ctx as int] == (Symbol { escapes: e, total: final(s)@[ctx as int].total, ..c })
            &&& c.symbols == 0 ==> final(s)@[ctx as int].total == e.wrapping_add(extra)
        },
        (count > count_limit || old(s)@[ctx as int].total > RANGE_CODER_BOTTOM - 0x100)
            && old(s)@[ctx as int].symbols == 0 ==> ok,
{
    let c = s[ctx];
    if count > count_limit || c.total as u32 > RANGE_CODER_BOTTOM - 0x100 {
        let tree = if c.symbols != 0 {
            match rescale(s, ctx + c.symbols as usize) {
                None => {
                    return false;
                },
                Some(t) => t,
            }
        } else {
            0
        };
        let mut c2 = s[ctx];
        c2.escapes = c2.escapes - c2.escapes / 2;
        c2.total = tree.wrapping_add(c2.escapes).wrapping_add(extra);
        s.set(ctx, c2);
    }
    true
}

/// Put a fresh symbol for `value`, counted `delta`, at the next free place.
fn new_symbol(s: &mut Vec<Symbol>, next_symbol: &mut usize, value: u8, delta: u8) -> (r: Option<usize>)
    requires
        old(s)@.len() == RANGE_CODER_SYMBOLS,
    ensures
        final(s)@.len() == RANGE_CODER_SYMBOLS,
        r matches Some(i) ==> i < RANGE_CODER_SYMBOLS,
        *old(next_symbol) >= RANGE_CODER_SYMBOLS ==> r is None && final(s)@ == old(s)@
            && *final(next_symbol) == *old(next_symbol),
        *old(next_symbol) < RANGE_CODER_SYMBOLS ==> r == Some(*old(next_symbol))
            && *final(next_symbol) == *old(next_symbol) + 1
            && final(s)@ == old(s)@.update(*old(next_symbol) as int, Symbol::spec_leaf(value, delta)),
{
    if *next_symbol >= RANGE_CODER_SYMBOLS {
        return None;
    }
    let i = *next_symbol;
    s.set(i, Symbol::leaf(value, delta));
    *next_symbol = i + 1;
    Some(i)
}

/// The forward offset from `from` to `to`, when there is one that a link can hold.
fn link(from: usize, to: usize) -> (r: Option<u16>)
    ensures
        r == if to > from && to - from <= 0xffff {
            Some((to - from) as u16)
        } else {
            None::<u16>
        },
        r matches Some(o) ==> o > 0 && from + o == to,
{
    if to > from && to - from <= 0xffff {
        Some((to - from) as u16)
    } else {
        None
    }
}

/// Find `value` in the tree of context `ctx`, or add it, counting it `delta` more. The
/// search starts from `under` and `count` (what the context gives every byte); returns the
/// symbol, the count of the symbols before it, and its count before this one.
fn find_or_add(
    s: &mut Vec<Symbol>,
    next_symbol: &mut usize,
    ctx: usize,
    value: u8,
    under: u16,
    count: u16,
    delta: u8,
) -> (r: Option<(usize, u16, u16)>)
    requires
        old(s)@.len() == RANGE_CODER_SYMBOLS,
        ctx < RANGE_CODER_SYMBOLS,
    ensures
        final(s)@.len() == RANGE_CODER_SYMBOLS,
        r matches Some((i, _, _)) ==> i < RANGE_CODER_SYMBOLS && final(s)@[i as int].value == value,
        old(s)@[ctx as int].symbols == 0 && ctx < *old(next_symbol) < RANGE_CODER_SYMBOLS ==> r == Some(
            (*old(next_symbol), under, count),
        ) && *final(next_symbol) == *old(next_symbol) + 1,
{
    let mut under = under;
    let mut count = count;
    let c = s[ctx];
    if c.symbols == 0 {
        let i = match new_symbol(s, next_symbol, value, delta) {
            None => {
                return None;
            },
            Some(i) => i,
        };
        let offset = match link(ctx, i) {
            None => {
                return None;
            },
            Some(o) => o,
        };
        let mut c2 = s[ctx];
        c2.symbols = offset;
        s.set(ctx, c2);
        return Some((i, under, count));
    }
    let mut node = ctx + c.symbols as usize;
    loop
        invariant
            s@.len() == RANGE_CODER_SYMBOLS,
            node < RANGE_CODER_SYMBOLS + 0x10000,
            ctx < RANGE_CODER_SYMBOLS,
            old(s)@[ctx as int].symbols != 0,
        decreases RANGE_CODER_SYMBOLS + 0x10000 - node,
    {
        if node >= RANGE_CODER_SYMBOLS {
            return None;
        }
        let mut n = s[node];
        if value < n.value {
            n.under = n.under.wrapping_add(delta as u16);
            s.set(node, n);
            if n.left != 0 {
                node = node + n.left as usize;
            } else {
                let i = match new_symbol(s, next_symbol, value, delta) {
                    None => {
                        return None;
                    },
                    Some(i) => i,
                };
                let offset = match link(node, i) {
                    None => {
                        return None;
                    },
                    Some(o) => o,
                };
                let mut n2 = s[node];
                n2.left = offset;
                s.set(node, n2);
                return Some((i, under, count));
            }
        } else if value > n.value {
            under = under.wrapping_add(n.under);
            if n.right != 0 {
                node = node + n.right as usize;
            } else {
                let i = match new_symbol(s, next_symbol, value, delta) {
                    None => {
                        return None;
                    },
                    Some(i) => i,
                };
                let offset = match link(node, i) {
                    None => {
                        return None;
                    },
                    Some(o) => o,
                };
                let mut n2 = s[node];
                n2.right = offset;
                s.set(node, n2);
                return Some((i, under, count));
            }
        } else {
            count = count.wrapping_add(n.count as u16);
            under = under.wrapping_add(n.under.wrapping_sub(n.count as u16));
            n.under = n.under.wrapping_add(delta as u16);
            n.count = n.count.wrapping_add(delta);
            s.set(node, n);
            return Some((node, under, count));
        }
    }
}

/// Code the interval `[start, start + count)` out of `total` with the encoder's `low` and
/// `range`, writing the settled bytes to `out` from `pos`. Fails when `out` is full, or the
/// total is 0.
fn encode(
    low: &mut u32,
    range: &mut u32,
    start: u32,
    count: u32,
    total: u32,
    out: &mut [u8],
    pos: &mut usize,
) -> (ok: bool)
    requires
        *old(pos) <= old(out)@.len(),
    ensures
        final(out)@.len() == old(out)@.len(),
        *final(pos) <= final(out)@.len(),
        *old(pos) <= *final(pos),
        forall|k: int| 0 <= k < *old(pos) ==> #[trigger] final(out)@[k] == old(out)@[k],
        total == 0 ==> !ok && *final(pos) == *old(pos) && final(out)@ == old(out)@,
        ok ==> (*final(low) ^ final(low).wrapping_add(*final(range))) >= RANGE_CODER_TOP && *final(range)
            >= RANGE_CODER_BOTTOM,
        !ok ==> total == 0 || *final(pos) == final(out)@.len(),
{
    if total == 0 {
        return false;
    }
    *range = *range / total;
    *low = low.wrapping_add(start.wrapping_mul(*range));
    *range = range.wrapping_mul(count);
    loop
        invariant
            out@.len() == old(out)@.len(),
            *old(pos) <= *pos <= out@.len(),
            forall|k: int| 0 <= k < *old(pos) ==> #[trigger] out@[k] == old(out)@[k],
            total != 0,
        decreases out@.len() - *pos,
    {
        if (*low ^ low.wrapping_add(*range)) >= RANGE_CODER_TOP {
            if *range >= RANGE_CODER_BOTTOM {
                return true;
            }
            *range = 0u32.wrapping_sub(*low) & (RANGE_CODER_BOTTOM - 1);
        }
        if *pos >= out.len() {
            return false;
        }
        out[*pos] = #[verifier::truncate] ((*low >> 24u32) as u8);
        *pos = *pos + 1;
        *range = *range << 8u32;
        *low = *low << 8u32;
    }
}

/// The renormalisation of a decoder after it took an interval: settled bytes are shifted
/// out, and the next input bytes, 0 once `input` runs out, shifted into `code`. Fails
/// after [`DECODER_MAXIMUM_SHIFTS`] shifts.
fn decode_normalize(low: &mut u32, range: &mut u32, code: &mut u32, input: &[u8], pos: &mut usize) -> (ok: bool)
    requires
        *old(pos) <= input@.len(),
    ensures
        *old(pos) <= *final(pos) <= input@.len(),
        ok ==> (*final(low) ^ final(low).wrapping_add(*final(range))) >= RANGE_CODER_TOP && *final(range)
            >= RANGE_CODER_BOTTOM,
        (*old(low) ^ old(low).wrapping_add(*old(range))) >= RANGE_CODER_TOP && *old(range)
            >= RANGE_CODER_BOTTOM ==> ok && *final(low) == *old(low) && *final(range) == *old(range)
            && *final(code) == *old(code) && *final(pos) == *old(pos),
{
    let mut shifts: u32 = 0;
    loop
        invariant
            *old(pos) <= *pos <= input@.len(),
            shifts <= DECODER_MAXIMUM_SHIFTS,
            shifts == 0 ==> *low == *old(low) && *range == *old(range) && *code == *old(code) && *pos
                == *old(pos),
            (*old(low) ^ old(low).wrapping_add(*old(range))) >= RANGE_CODER_TOP && *old(range)
                >= RANGE_CODER_BOTTOM ==> shifts == 0,
        decreases DECODER_MAXIMUM_SHIFTS - shifts,
    {
        if (*low ^ low.wrapping_add(*range)) >= RANGE_CODER_TOP {
            if *range >= RANGE_CODER_BOTTOM {
                return true;
            }
            *range = 0u32.wrapping_sub(*low) & (RANGE_CODER_BOTTOM - 1);
        }
        if shifts >= DECODER_MAXIMUM_SHIFTS {
            return false;
        }
        shifts = shifts + 1;
        *code = *code << 8u32;
        if *pos < input.len() {
            *code = *code | input[*pos] as u32;
            *pos = *pos + 1;
        }
        *range = *range << 8u32;
        *low = *low << 8u32;
    }
}

/// Take the interval `[start, start + count)` out of `range`, and renormalise.
fn decode_take(
    low: &mut u32,
    range: &mut u32,
    code: &mut u32,
    start: u32,
    count: u32,
    input: &[u8],
    pos: &mut usize,
) -> (ok: bool)
    requires
        *old(pos) <= input@.len(),
    ensures
        *old(pos) <= *final(pos) <= input@.len(),
        ok ==> (*final(low) ^ final(low).wrapping_add(*final(range))) >= RANGE_CODER_TOP && *final(range)
            >= RANGE_CODER_BOTTOM,
        ({
            let l = old(low).wrapping_add(start.wrapping_mul(*old(range)));
            let r = old(range).wrapping_mul(count);
            (l ^ l.wrapping_add(r)) >= RANGE_CODER_TOP && r >= RANGE_CODER_BOTTOM ==> ok && *final(low) == l
                && *final(range) == r && *final(code) == *old(code) && *final(pos) == *old(pos)
        }),
{
    *low = low.wrapping_add(start.wrapping_mul(*range));
    *range = range.wrapping_mul(count);
    decode_normalize(low, range, code, input, pos)
}

/// The code point of the decoder within a context of `total`: the decoder's range is
/// divided by `total`. `None` when the total or the divided range is 0.
fn decode_code_point(low: u32, range: &mut u32, code: u32, total: u16) -> (r: Option<u16>)
    ensures
        total == 0 ==> r is None && *final(range) == *old(range),
        total != 0 ==> *final(range) == *old(range) / (total as u32),
        total != 0 && *final(range) == 0 ==> r is None,
        total != 0 && *final(range) != 0 ==> r == Some(((code.wrapping_sub(low) / *final(range)) as u16)),
{
    if total == 0 {
        return None;
    }
    *range = *range / total as u32;
    if *range == 0 {
        return None;
    }
    Some(#[verifier::truncate] ((code.wrapping_sub(low) / *range) as u16))
}

/// The range coder's model, reset to a fresh order-0 context at index 0.
fn reset_model(s: &mut Vec<Symbol>, next_symbol: &mut usize, predicted: &mut u16, order: &mut usize)
    requires
        old(s)@.len() == RANGE_CODER_SYMBOLS,
    ensures
        final(s)@.len() == RANGE_CODER_SYMBOLS,
        *final(next_symbol) == 1,
        *final(predicted) == 0,
        *final(order) == 0,
        final(s)@ == old(s)@.update(0, Symbol::spec_root()),
{
    s.set(0, Symbol::root());
    *next_symbol = 1;
    *predicted = 0;
    *order = 0;
}

/// After a byte: move the prediction to the next lower context once the order is full,
/// and start the model afresh when it is nearly out of symbols.
fn advance_model(s: &mut Vec<Symbol>, next_symbol: &mut usize, predicted: &mut u16, order: &mut usize) -> (ok: bool)
    requires
        old(s)@.len() == RANGE_CODER_SYMBOLS,
        *old(order) <= SUBCONTEXT_ORDER,
    ensures
        final(s)@.len() == RANGE_CODER_SYMBOLS,
        *final(order) <= SUBCONTEXT_ORDER,
        ok == (*old(order) < SUBCONTEXT_ORDER || (*old(predicted) as usize) < RANGE_CODER_SYMBOLS),
        ok && *old(next_symbol) >= RANGE_CODER_SYMBOLS - SUBCONTEXT_ORDER ==> *final(next_symbol) == 1
            && *final(predicted) == 0 && *final(order) == 0 && final(s)@[0] == Symbol::spec_root(),
        ok && *old(next_symbol) < RANGE_CODER_SYMBOLS - SUBCONTEXT_ORDER ==> {
            &&& final(s)@ == old(s)@
            &&& *final(next_symbol) == *old(next_symbol)
            &&& *old(order) >= SUBCONTEXT_ORDER ==> *final(predicted) == old(s)@[*old(predicted) as int].parent
                && *final(order) == *old(order)
            &&& *old(order) < SUBCONTEXT_ORDER ==> *final(predicted) == *old(predicted) && *final(order)
                == *old(order) + 1
        },
{
    if *order >= SUBCONTEXT_ORDER {
        if *predicted as usize >= RANGE_CODER_SYMBOLS {
            return false;
        }
        *predicted = s[*predicted as usize].parent;
    } else {
        *order = *order + 1;
    }
    if *next_symbol >= RANGE_CODER_SYMBOLS - SUBCONTEXT_ORDER {
        reset_model(s, next_symbol, predicted, order);
    }
    true
}

/// ENet's built-in range coder compressor.
pub struct RangeCoder {
    symbols: Vec<Symbol>,
}

impl RangeCoder {
    /// Whether the coder holds its full table of symbols, as [`RangeCoder::new`] makes it.
    pub closed spec fn wf(&self) -> bool {
        self.symbols@.len() == RANGE_CODER_SYMBOLS
    }

    /// Create a new range coder compressor.
    pub fn new() -> (r: RangeCoder)
        ensures
            r.wf(),
    {
        let mut symbols: Vec<Symbol> = Vec::new();
        while symbols.len() < RANGE_CODER_SYMBOLS
            invariant
                symbols@.len() <= RANGE_CODER_SYMBOLS,
            decreases RANGE_CODER_SYMBOLS - symbols@.len(),
        {
            symbols.push(Symbol::empty());
        }
        RangeCoder { symbols }
    }

    /// Compress the bytes of `in_buffers`, one after the other, into `out`. Returns the
    /// compressed length, or 0 when `in_limit` is 0, there are no buffers, or the
    /// compressed bytes do not fit in `out` (and, for a coder that [`RangeCoder::new`] did
    /// not make, when it lacks its table of symbols).
    pub fn compress_buffers(&mut self, in_buffers: &Vec<&[u8]>, in_limit: usize, out: &mut [u8]) -> (n:
        usize)
        ensures
            n <= old(out)@.len(),
            final(out)@.len() == old(out)@.len(),
            in_limit == 0 || in_buffers@.len() == 0 ==> n == 0 && final(out)@ == old(out)@,
            old(self).wf() ==> final(self).wf(),
    {
        if in_limit == 0 || in_buffers.len() == 0 || self.symbols.len() != RANGE_CODER_SYMBOLS {
            return 0;
        }
        encode_buffers(&mut self.symbols, in_buffers, out)
    }

    /// Decompress `in_data` into `out`. Returns the decompressed length, or 0 when
    /// `in_data` is empty, the decompressed bytes do not fit in `out`, or `in_data` is not
    /// the output of the compressor (and, for a coder that [`RangeCoder::new`] did not
    /// make, when it lacks its table of symbols).
    pub fn decompress_into(&mut self, in_data: &[u8], out: &mut [u8]) -> (n: usize)
        ensures
            n <= old(out)@.len(),
            final(out)@.len() == old(out)@.len(),
            in_data@.len() == 0 ==> n == 0 && final(out)@ == old(out)@,
            old(self).wf() ==> final(self).wf(),
    {
        if in_data.len() == 0 || self.symbols.len() != RANGE_CODER_SYMBOLS {
            return 0;
        }
        decode_bytes(&mut self.symbols, in_data, out)
    }
}

impl Default for RangeCoder {
    fn default() -> (r: Self)
        ensures
            r.wf(),
    {
        RangeCoder::new()
    }
}

impl Compressor for RangeCoder {
    fn compress(&mut self, in_buffers: Vec<&[u8]>, in_limit: usize, out: &mut [u8]) -> (n: usize)
        ensures
            n <= old(out)@.len(),
            final(out)@.len() == old(out)@.len(),
            in_limit == 0 || in_buffers@.len() == 0 ==> n == 0 && final(out)@ == old(out)@,
            old(self).wf() ==> final(self).wf(),
    {
        self.compress_buffers(&in_buffers, in_limit, out)
    }

    fn decompress(&mut self, in_data: &[u8], out: &mut [u8]) -> (n: usize)
        ensures
            n <= old(out)@.len(),
            final(out)@.len() == old(out)@.len(),
            in_data@.len() == 0 ==> n == 0 && final(out)@ == old(out)@,
            old(self).wf() ==> final(self).wf(),
    {
        self.decompress_into(in_data, out)
    }
}

/// Encode the bytes of `in_buffers` with the model `s` into `out`; 0 when they do not fit.
fn encode_buffers(s: &mut Vec<Symbol>, in_buffers: &Vec<&[u8]>, out: &mut [u8]) -> (n: usize)
    requires
        old(s)@.len() == RANGE_CODER_SYMBOLS,
    ensures
        final(s)@.len() == RANGE_CODER_SYMBOLS,
        n <= old(out)@.len(),
        final(out)@.len() == old(out)@.len(),
{
    let mut low: u32 = 0;
    let mut range: u32 = 0xffff_ffff;
    let mut pos: usize = 0;
    let mut predicted: u16 = 0;
    let mut order: usize = 0;
    let mut next_symbol: usize = 0;
    reset_model(s, &mut next_symbol, &mut predicted, &mut order);
    let mut b: usize = 0;
    while b < in_buffers.len()
        invariant
            s@.len() == RANGE_CODER_SYMBOLS,
            pos <= out@.len(),
            out@.len() == old(out)@.len(),
            order <= SUBCONTEXT_ORDER,
        decreases in_buffers@.len() - b,
    {
        let data = in_buffers[b];
        let mut k: usize = 0;
        while k < data.len()
            invariant
                s@.len() == RANGE_CODER_SYMBOLS,
                pos <= out@.len(),
                out@.len() == old(out)@.len(),
                order <= SUBCONTEXT_ORDER,
            decreases data@.len() - k,
        {
            let value = data[k];
            if !encode_byte(s, &mut next_symbol, &mut predicted, value, &mut low, &mut range, out, &mut pos) {
                return 0;
            }
            if !advance_model(s, &mut next_symbol, &mut predicted, &mut order) {
                return 0;
            }
            k = k + 1;
        }
        b = b + 1;
    }
    while low != 0
        invariant
            s@.len() == RANGE_CODER_SYMBOLS,
            pos <= out@.len(),
            out@.len() == old(out)@.len(),
        decreases out@.len() - pos,
    {
        if pos >= out.len() {
            return 0;
        }
        out[pos] = #[verifier::truncate] ((low >> 24u32) as u8);
        pos = pos + 1;
        low = low << 8u32;
    }
    pos
}

/// Encode `value`: in each context from the predicted one down, code it if the context
/// has seen it, else code an escape and add it there; in the order-0 context every byte
/// can be coded.
fn encode_byte(
    s: &mut Vec<Symbol>,
    next_symbol: &mut usize,
    predicted: &mut u16,
    value: u8,
    low: &mut u32,
    range: &mut u32,
    out: &mut [u8],
    pos: &mut usize,
) -> (ok: bool)
    requires
        old(s)@.len() == RANGE_CODER_SYMBOLS,
        *old(pos) <= old(out)@.len(),
    ensures
        final(s)@.len() == RANGE_CODER_SYMBOLS,
        *final(pos) <= final(out)@.len(),
        final(out)@.len() == old(out)@.len(),
{
    let mut slot = Slot::Predicted;
    let mut sub = *predicted as usize;
    let mut steps: usize = 0;
    while sub != 0
        invariant
            s@.len() == RANGE_CODER_SYMBOLS,
            *pos <= out@.len(),
            out@.len() == old(out)@.len(),
        decreases RANGE_CODER_SYMBOLS - steps,
    {
        if sub >= RANGE_CODER_SYMBOLS || steps >= RANGE_CODER_SYMBOLS {
            return false;
        }
        steps = steps + 1;
        let (symbol, under, count) = match find_or_add(s, next_symbol, sub, value, 0, 0, SUBCONTEXT_SYMBOL_DELTA) {
            None => {
                return false;
            },
            Some(r) => r,
        };
        set_slot(s, predicted, slot, symbol as u16);
        slot = Slot::ParentOf(symbol);
        let c = s[sub];
        let total = c.total;
        if count > 0 {
            if !encode(low, range, c.escapes as u32 + under as u32, count as u32, total as u32, out, pos) {
                return false;
            }
        } else {
            if c.escapes > 0 && c.escapes < total {
                if !encode(low, range, 0, c.escapes as u32, total as u32, out, pos) {
                    return false;
                }
            }
            let mut c2 = s[sub];
            c2.escapes = c2.escapes.wrapping_add(SUBCONTEXT_ESCAPE_DELTA);
            c2.total = c2.total.wrapping_add(SUBCONTEXT_ESCAPE_DELTA);
            s.set(sub, c2);
        }
        let mut c3 = s[sub];
        c3.total = c3.total.wrapping_add(SUBCONTEXT_SYMBOL_DELTA as u16);
        s.set(sub, c3);
        if !rescale_context(s, sub, count, 0xff - 2 * SUBCONTEXT_SYMBOL_DELTA as u16, 0) {
            return false;
        }
        if count > 0 {
            return true;
        }
        sub = s[sub].parent as usize;
    }
    let (symbol, under, count) = match find_or_add(
        s,
        next_symbol,
        0,
        value,
        value as u16 * CONTEXT_SYMBOL_MINIMUM,
        CONTEXT_SYMBOL_MINIMUM,
        CONTEXT_SYMBOL_DELTA,
    ) {
        None => {
            return false;
        },
        Some(r) => r,
    };
    set_slot(s, predicted, slot, symbol as u16);
    let root = s[0];
    if !encode(low, range, root.escapes as u32 + under as u32, count as u32, root.total as u32, out, pos) {
        return false;
    }
    let mut r2 = s[0];
    r2.total = r2.total.wrapping_add(CONTEXT_SYMBOL_DELTA as u16);
    s.set(0, r2);
    rescale_context(
        s,
        0,
        count,
        0xff - 2 * CONTEXT_SYMBOL_DELTA as u16 + CONTEXT_SYMBOL_MINIMUM,
        256 * CONTEXT_SYMBOL_MINIMUM,
    )
}

/// What decoding one byte gave: the byte, the context it was found in, and the symbol
/// found there.
struct Decoded {
    value: u8,
    context: usize,
    bottom: u16,
}

/// Decode `in_data` with the model `s` into `out`; 0 when the bytes do not fit or the
/// input is corrupt.
fn decode_bytes(s: &mut Vec<Symbol>, in_data: &[u8], out: &mut [u8]) -> (n: usize)
    requires
        old(s)@.len() == RANGE_CODER_SYMBOLS,
    ensures
        final(s)@.len() == RANGE_CODER_SYMBOLS,
        n <= old(out)@.len(),
        final(out)@.len() == old(out)@.len(),
{
    let mut low: u32 = 0;
    let mut range: u32 = 0xffff_ffff;
    let mut code: u32 = 0;
    let mut in_pos: usize = 0;
    let mut pos: usize = 0;
    let mut predicted: u16 = 0;
    let mut order: usize = 0;
    let mut next_symbol: usize = 0;
    reset_model(s, &mut next_symbol, &mut predicted, &mut order);
    let mut shift: u32 = 24;
    while shift <= 24 && in_pos < in_data.len()
        invariant
            in_pos <= in_data@.len(),
            shift == 24 || shift == 16 || shift == 8 || shift == 0,
        decreases in_data@.len() - in_pos,
    {
        code = code | ((in_data[in_pos] as u32) << shift);
        in_pos = in_pos + 1;
        if shift == 0 {
            break;
        }
        shift = shift - 8;
    }
    loop
        invariant
            s@.len() == RANGE_CODER_SYMBOLS,
            pos <= out@.len(),
            out@.len() == old(out)@.len(),
            in_pos <= in_data@.len(),
            order <= SUBCONTEXT_ORDER,
        decreases out@.len() - pos,
    {
        let decoded = match decode_symbol(
            s,
            &mut next_symbol,
            predicted,
            &mut low,
            &mut range,
            &mut code,
            in_data,
            &mut in_pos,
        ) {
            Err(()) => {
                return 0;
            },
            Ok(None) => {
                return pos;
            },
            Ok(Some(d)) => d,
        };
        if !patch_contexts(s, &mut next_symbol, &mut predicted, decoded.value, decoded.context, decoded.bottom) {
            return 0;
        }
        if pos >= out.len() {
            return 0;
        }
        out[pos] = decoded.value;
        pos = pos + 1;
        if !advance_model(s, &mut next_symbol, &mut predicted, &mut order) {
            return 0;
        }
    }
}

/// Decode the next byte: from the predicted context down, the first context that does not
/// escape gives it. `Ok(None)` at the end of the data (an escape from the order-0
/// context); `Err` on corrupt input.
fn decode_symbol(
    s: &mut Vec<Symbol>,
    next_symbol: &mut usize,
    predicted: u16,
    low: &mut u32,
    range: &mut u32,
    code: &mut u32,
    input: &[u8],
    in_pos: &mut usize,
) -> (r: Result<Option<Decoded>, ()>)
    requires
        old(s)@.len() == RANGE_CODER_SYMBOLS,
        *old(in_pos) <= input@.len(),
    ensures
        final(s)@.len() == RANGE_CODER_SYMBOLS,
        *final(in_pos) <= input@.len(),
        r matches Ok(Some(d)) ==> d.context < RANGE_CODER_SYMBOLS,
{
    let mut sub = predicted as usize;
    let mut steps: usize = 0;
    while sub != 0
        invariant
            s@.len() == RANGE_CODER_SYMBOLS,
            *in_pos <= input@.len(),
        decreases RANGE_CODER_SYMBOLS - steps,
    {
        if sub >= RANGE_CODER_SYMBOLS || steps >= RANGE_CODER_SYMBOLS {
            return Err(());
        }
        steps = steps + 1;
        let c = s[sub];
        if c.escapes > 0 && c.escapes < c.total {
            let point = match decode_code_point(*low, range, *code, c.total) {
                None => {
                    return Err(());
                },
                Some(p) => p,
            };
            if point < c.escapes {
                if !decode_take(low, range, code, 0, c.escapes as u32, input, in_pos) {
                    return Err(());
                }
            } else {
                let (symbol, value, under, count) = match decode_in_context(s, sub, point - c.escapes) {
                    None => {
                        return Err(());
                    },
                    Some(r) => r,
                };
                if !decode_take(low, range, code, c.escapes as u32 + under as u32, count as u32, input, in_pos) {
                    return Err(());
                }
                let mut c2 = s[sub];
                c2.total = c2.total.wrapping_add(SUBCONTEXT_SYMBOL_DELTA as u16);
                s.set(sub, c2);
                if !rescale_context(s, sub, count, 0xff - 2 * SUBCONTEXT_SYMBOL_DELTA as u16, 0) {
                    return Err(());
                }
                return Ok(Some(Decoded { value, context: sub, bottom: symbol as u16 }));
            }
        }
        sub = s[sub].parent as usize;
    }
    let root = s[0];
    let point = match decode_code_point(*low, range, *code, root.total) {
        None => {
            return Err(());
        },
        Some(p) => p,
    };
    if point < root.escapes {
        if !decode_take(low, range, code, 0, root.escapes as u32, input, in_pos) {
            return Err(());
        }
        return Ok(None);
    }
    let (symbol, value, under, count) = match decode_in_root(s, next_symbol, point - root.escapes) {
        None => {
            return Err(());
        },
        Some(r) => r,
    };
    if !decode_take(low, range, code, root.escapes as u32 + under as u32, count as u32, input, in_pos) {
        return Err(());
    }
    let mut r2 = s[0];
    r2.total = r2.total.wrapping_add(CONTEXT_SYMBOL_DELTA as u16);
    s.set(0, r2);
    if !rescale_context(
        s,
        0,
        count,
        0xff - 2 * CONTEXT_SYMBOL_DELTA as u16 + CONTEXT_SYMBOL_MINIMUM,
        256 * CONTEXT_SYMBOL_MINIMUM,
    ) {
        return Err(());
    }
    Ok(Some(Decoded { value, context: 0, bottom: symbol as u16 }))
}

/// Find the symbol of context `ctx` whose interval holds `code`; returns it with its
/// value, the count before it and its count, counting it once more.
fn decode_in_context(s: &mut Vec<Symbol>, ctx: usize, code: u16) -> (r: Option<(usize, u8, u16, u16)>)
    requires
        old(s)@.len() == RANGE_CODER_SYMBOLS,
        ctx < RANGE_CODER_SYMBOLS,
    ensures
        final(s)@.len() == RANGE_CODER_SYMBOLS,
{
    let c = s[ctx];
    if c.symbols == 0 {
        return None;
    }
    let mut under: u16 = 0;
    let mut node = ctx + c.symbols as usize;
    loop
        invariant
            s@.len() == RANGE_CODER_SYMBOLS,
            node < RANGE_CODER_SYMBOLS + 0x10000,
        decreases RANGE_CODER_SYMBOLS + 0x10000 - node,
    {
        if node >= RANGE_CODER_SYMBOLS {
            return None;
        }
        let mut n = s[node];
        let after = under.wrapping_add(n.under);
        let before = n.count as u16;
        if code >= after {
            under = under.wrapping_add(n.under);
            if n.right != 0 {
                node = node + n.right as usize;
            } else {
                return None;
            }
        } else if (code as i32) < (after as i32) - (before as i32) {
            n.under = n.under.wrapping_add(SUBCONTEXT_SYMBOL_DELTA as u16);
            s.set(node, n);
            if n.left != 0 {
                node = node + n.left as usize;
            } else {
                return None;
            }
        } else {
            let value = n.value;
            let count = n.count as u16;
            let under = after.wrapping_sub(before);
            n.under = n.under.wrapping_add(SUBCONTEXT_SYMBOL_DELTA as u16);
            n.count = n.count.wrapping_add(SUBCONTEXT_SYMBOL_DELTA);
            s.set(node, n);
            return Some((node, value, under, count));
        }
    }
}

/// Find or add the symbol of the order-0 context whose interval holds `code` (each byte
/// has the minimum count beyond what its symbol counts); returns it with its value, the
/// count before it and its count, counting it once more.
fn decode_in_root(s: &mut Vec<Symbol>, next_symbol: &mut usize, code: u16) -> (r: Option<(usize, u8, u16, u16)>)
    requires
        old(s)@.len() == RANGE_CODER_SYMBOLS,
    ensures
        final(s)@.len() == RANGE_CODER_SYMBOLS,
        r matches Some((i, _, _, _)) ==> i < RANGE_CODER_SYMBOLS,
{
    let root = s[0];
    let count = CONTEXT_SYMBOL_MINIMUM;
    if root.symbols == 0 {
        let value = #[verifier::truncate] ((code / CONTEXT_SYMBOL_MINIMUM) as u8);
        let under = code - code % CONTEXT_SYMBOL_MINIMUM;
        let i = match new_symbol(s, next_symbol, value, CONTEXT_SYMBOL_DELTA) {
            None => {
                return None;
            },
            Some(i) => i,
        };
        let offset = match link(0, i) {
            None => {
                return None;
            },
            Some(o) => o,
        };
        let mut r2 = s[0];
        r2.symbols = offset;
        s.set(0, r2);
        return Some((i, value, under, count));
    }
    let mut under: u16 = 0;
    let mut node = root.symbols as usize;
    loop
        invariant
            s@.len() == RANGE_CODER_SYMBOLS,
            node < RANGE_CODER_SYMBOLS + 0x10000,
        decreases RANGE_CODER_SYMBOLS + 0x10000 - node,
    {
        if node >= RANGE_CODER_SYMBOLS {
            return None;
        }
        let mut n = s[node];
        let after: u16 = #[verifier::truncate] ((under as i32 + n.under as i32 + (n.value as i32 + 1)
            * CONTEXT_SYMBOL_MINIMUM as i32) as u16);
        let before: u16 = n.count as u16 + CONTEXT_SYMBOL_MINIMUM;
        if code >= after {
            under = under.wrapping_add(n.under);
            if n.right != 0 {
                node = node + n.right as usize;
            } else {
                let value = #[verifier::truncate] ((n.value as i32 + 1 + (code as i32 - after as i32)
                    / CONTEXT_SYMBOL_MINIMUM as i32) as u8);
                let under = #[verifier::truncate] ((code as i32 - (code as i32 - after as i32)
                    % CONTEXT_SYMBOL_MINIMUM as i32) as u16);
                let i = match new_symbol(s, next_symbol, value, CONTEXT_SYMBOL_DELTA) {
                    None => {
                        return None;
                    },
                    Some(i) => i,
                };
                let offset = match link(node, i) {
                    None => {
                        return None;
                    },
                    Some(o) => o,
                };
                let mut n2 = s[node];
                n2.right = offset;
                s.set(node, n2);
                return Some((i, value, under, count));
            }
        } else if (code as i32) < (after as i32) - (before as i32) {
            n.under = n.under.wrapping_add(CONTEXT_SYMBOL_DELTA as u16);
            s.set(node, n);
            if n.left != 0 {
                node = node + n.left as usize;
            } else {
                let gap: i32 = after as i32 - before as i32 - code as i32 - 1;
                let value = #[verifier::truncate] ((n.value as i32 - 1 - gap / CONTEXT_SYMBOL_MINIMUM as i32) as u8);
                let under = #[verifier::truncate] ((code as i32 - gap % CONTEXT_SYMBOL_MINIMUM as i32) as u16);
                let i = match new_symbol(s, next_symbol, value, CONTEXT_SYMBOL_DELTA) {
                    None => {
                        return None;
                    },
                    Some(i) => i,
                };
                let offset = match link(node, i) {
                    None => {
                        return None;
                    },
                    Some(o) => o,
                };
                let mut n2 = s[node];
                n2.left = offset;
                s.set(node, n2);
                return Some((i, value, under, count));
            }
        } else {
            let value = n.value;
            let count = count.wrapping_add(n.count as u16);
            let under = after.wrapping_sub(before);
            n.under = n.under.wrapping_add(CONTEXT_SYMBOL_DELTA as u16);
            n.count = n.count.wrapping_add(CONTEXT_SYMBOL_DELTA);
            s.set(node, n);
            return Some((node, value, under, count));
        }
    }
}

/// After decoding `value` in context `found`: add it to each context above, from the
/// predicted one down, which escaped, and link the chain of symbols found, ending in
/// `bottom`.
fn patch_contexts(
    s: &mut Vec<Symbol>,
    next_symbol: &mut usize,
    predicted: &mut u16,
    value: u8,
    found: usize,
    bottom: u16,
) -> (ok: bool)
    requires
        old(s)@.len() == RANGE_CODER_SYMBOLS,
    ensures
        final(s)@.len() == RANGE_CODER_SYMBOLS,
{
    let mut slot = Slot::Predicted;
    let mut patch = *predicted as usize;
    let mut steps: usize = 0;
    while patch != found
        invariant
            s@.len() == RANGE_CODER_SYMBOLS,
        decreases RANGE_CODER_SYMBOLS - steps,
    {
        if patch >= RANGE_CODER_SYMBOLS || steps >= RANGE_CODER_SYMBOLS {
            return false;
        }
        steps = steps + 1;
        let (symbol, _under, count) = match find_or_add(s, next_symbol, patch, value, 0, 0, SUBCONTEXT_SYMBOL_DELTA) {
            None => {
                return false;
            },
            Some(r) => r,
        };
        set_slot(s, predicted, slot, symbol as u16);
        slot = Slot::ParentOf(symbol);
        let mut c = s[patch];
        if count == 0 {
            c.escapes = c.escapes.wrapping_add(SUBCONTEXT_ESCAPE_DELTA);
            c.total = c.total.wrapping_add(SUBCONTEXT_ESCAPE_DELTA);
        }
        c.total = c.total.wrapping_add(SUBCONTEXT_SYMBOL_DELTA as u16);
        s.set(patch, c);
        if !rescale_context(s, patch, count, 0xff - 2 * SUBCONTEXT_SYMBOL_DELTA as u16, 0) {
            return false;
        }
        patch = s[patch].parent as usize;
    }
    set_slot(s, predicted, slot, bottom);
    true
}

} // verus!
