//! The scan reassembler: a working buffer holds carried-over codes of an
//! incomplete scan followed by freshly read codes; every complete scan is
//! handed out and the trailing partial scan moves to the front.
use vstd::prelude::*;
use crate::grid::{array_cells, array_shape, code_at, grid_holds, put_code_at, ScanGrid};

verus! {

/// Number of codes that form complete scans among `n` codes of a stream
/// that is `width` channels wide.
pub open spec fn complete_len(n: nat, width: nat) -> nat {
    (n / width) * width
}

/// The codes emitted as complete scans when `fresh` is appended to `carry`.
pub open spec fn emitted_codes(carry: Seq<u32>, fresh: Seq<u32>, width: nat) -> Seq<u32> {
    let all = carry + fresh;
    all.subrange(0, complete_len(all.len(), width) as int)
}

/// The codes of the incomplete trailing scan kept for the next step.
pub open spec fn carried_codes(carry: Seq<u32>, fresh: Seq<u32>, width: nat) -> Seq<u32> {
    let all = carry + fresh;
    all.subrange(complete_len(all.len(), width) as int, all.len() as int)
}

/// Codes emitted over a whole sequence of read chunks, starting from `carry`.
pub open spec fn emitted_over(carry: Seq<u32>, chunks: Seq<Seq<u32>>, width: nat) -> Seq<u32>
    decreases chunks.len(),
{
    if chunks.len() == 0 {
        Seq::empty()
    } else {
        emitted_codes(carry, chunks[0], width) + emitted_over(
            carried_codes(carry, chunks[0], width),
            chunks.drop_first(),
            width,
        )
    }
}

/// Carry-over left after a whole sequence of read chunks, starting from `carry`.
pub open spec fn carried_over(carry: Seq<u32>, chunks: Seq<Seq<u32>>, width: nat) -> Seq<u32>
    decreases chunks.len(),
{
    if chunks.len() == 0 {
        carry
    } else {
        carried_over(carried_codes(carry, chunks[0], width), chunks.drop_first(), width)
    }
}

/// The shape of one step: the emitted codes are the longest prefix of
/// `carry + fresh` made of whole scans, and the rest is carried.
proof fn lemma_step_shape(carry: Seq<u32>, fresh: Seq<u32>, width: nat)
    requires
        width >= 1,
    ensures
        emitted_codes(carry, fresh, width).len() == complete_len(carry.len() + fresh.len(), width),
        carried_codes(carry, fresh, width).len() == (carry.len() + fresh.len()) % width,
        emitted_codes(carry, fresh, width) + carried_codes(carry, fresh, width) == carry + fresh,
{
    let n = carry.len() + fresh.len();
    vstd::arithmetic::div_mod::lemma_fundamental_div_mod(n as int, width as int);
    assert((n / width) * width == width * (n / width)) by (nonlinear_arith);
    let all = carry + fresh;
    assert(all.subrange(0, complete_len(n, width) as int) + all.subrange(
        complete_len(n, width) as int,
        n as int,
    ) =~= all);
}

/// After any step the carry-over holds `(L + R) mod W` codes, fewer than one
/// scan, where `L` codes were carried in and `R` codes were read.
pub proof fn lemma_leftover_bound(carry: Seq<u32>, fresh: Seq<u32>, width: nat)
    requires
        width >= 1,
    ensures
        carried_codes(carry, fresh, width).len() == (carry.len() + fresh.len()) % width,
        carried_codes(carry, fresh, width).len() < width,
{
    lemma_step_shape(carry, fresh, width);
}

/// Carried-over codes followed by fresh codes, split at the end of the last
/// complete scan, give exactly the emitted scans and the new carry-over:
/// nothing is emitted twice and nothing is dropped.
pub proof fn lemma_no_duplication_or_loss(carry: Seq<u32>, fresh: Seq<u32>, width: nat)
    requires
        width >= 1,
    ensures
        emitted_codes(carry, fresh, width) + carried_codes(carry, fresh, width) == carry + fresh,
        emitted_codes(carry, fresh, width).len() % width == 0,
{
    lemma_step_shape(carry, fresh, width);
    let n = carry.len() + fresh.len();
    vstd::arithmetic::div_mod::lemma_mod_multiples_vanish((n / width) as int, 0, width as int);
    assert((n / width) * width == width * (n / width) + 0) by (nonlinear_arith);
}

/// Over a whole sequence of chunks, emitted codes followed by the final
/// carry-over are the initial carry-over followed by every chunk; the emitted
/// codes form whole scans and the final carry-over is shorter than a scan.
proof fn lemma_stream(carry: Seq<u32>, chunks: Seq<Seq<u32>>, width: nat)
    requires
        width >= 1,
        carry.len() < width,
    ensures
        emitted_over(carry, chunks, width) + carried_over(carry, chunks, width) == carry
            + chunks.flatten(),
        emitted_over(carry, chunks, width).len() % width == 0,
        carried_over(carry, chunks, width).len() < width,
    decreases chunks.len(),
{
    if chunks.len() == 0 {
        assert(carry + chunks.flatten() =~= carry);
        assert(emitted_over(carry, chunks, width) + carried_over(carry, chunks, width) =~= carry);
    } else {
        let c1 = carried_codes(carry, chunks[0], width);
        let e0 = emitted_codes(carry, chunks[0], width);
        let rest = chunks.drop_first();
        lemma_no_duplication_or_loss(carry, chunks[0], width);
        lemma_leftover_bound(carry, chunks[0], width);
        lemma_stream(c1, rest, width);
        let er = emitted_over(c1, rest, width);
        let cr = carried_over(c1, rest, width);
        assert(chunks.flatten() == chunks[0] + rest.flatten());
        assert(er + cr == c1 + rest.flatten());
        assert(e0 + c1 == carry + chunks[0]);
        assert(e0 + er + cr =~= e0 + (er + cr));
        assert(e0 + (c1 + rest.flatten()) =~= (e0 + c1) + rest.flatten());
        assert((carry + chunks[0]) + rest.flatten() =~= carry + (chunks[0] + rest.flatten()));
        assert(e0 + er + cr =~= carry + chunks.flatten());
        assert(e0.len() % width == 0 && er.len() % width == 0);
        assert((e0.len() + er.len()) % width == 0) by {
            vstd::arithmetic::div_mod::lemma_fundamental_div_mod(e0.len() as int, width as int);
            vstd::arithmetic::div_mod::lemma_mod_multiples_vanish(
                (e0.len() / width) as int,
                er.len() as int,
                width as int,
            );
        }
        assert((e0 + er).len() == e0.len() + er.len());
    }
}

/// For chunks of any sizes that add up to a whole number of scans, feeding
/// them one by one emits exactly what one step over all of them emits, that
/// is every code, as `N / W` scans, and leaves no carry-over.
pub proof fn lemma_conservation(chunks: Seq<Seq<u32>>, width: nat)
    requires
        width >= 1,
        chunks.flatten().len() % width == 0,
    ensures
        emitted_over(Seq::empty(), chunks, width) == emitted_codes(
            Seq::empty(),
            chunks.flatten(),
            width,
        ),
        emitted_over(Seq::empty(), chunks, width) == chunks.flatten(),
        emitted_over(Seq::empty(), chunks, width).len() / width == chunks.flatten().len() / width,
        carried_over(Seq::empty(), chunks, width).len() == 0,
{
    let e = Seq::<u32>::empty();
    let all = chunks.flatten();
    lemma_stream(e, chunks, width);
    assert(e + all =~= all);
    let em = emitted_over(e, chunks, width);
    let co = carried_over(e, chunks, width);
    assert(em.len() + co.len() == all.len());
    assert(co.len() == 0) by {
        vstd::arithmetic::div_mod::lemma_fundamental_div_mod(em.len() as int, width as int);
        vstd::arithmetic::div_mod::lemma_mod_multiples_vanish(
            (em.len() / width) as int,
            co.len() as int,
            width as int,
        );
        vstd::arithmetic::div_mod::lemma_small_mod(co.len(), width);
    }
    assert(em + co =~= em);
    lemma_no_duplication_or_loss(e, all, width);
    lemma_leftover_bound(e, all, width);
    assert(emitted_codes(e, all, width) + carried_codes(e, all, width) =~= all);
    assert(carried_codes(e, all, width).len() == 0);
    assert(emitted_codes(e, all, width) =~= all);
}

/// Outcome of one reassembly step.
pub struct Reassembly {
    /// The complete scans, concatenated in order.
    pub rows: Vec<u32>,
    /// How many complete scans `rows` holds.
    pub complete_scans: usize,
    /// How many codes of an incomplete scan now stand at the buffer's front.
    pub leftover: usize,
}

/// Reassembles the first `leftover + fresh` codes of `buf`, whose first
/// `leftover` codes were carried over and whose next `fresh` codes were just
/// read: emits the complete scans and moves the trailing partial scan to the
/// buffer's front.
pub fn reassemble(buf: &mut ScanGrid, leftover: usize, fresh: usize, width: usize) -> (r:
    Reassembly)
    requires
        width >= 1,
        grid_holds(*old(buf), array_shape(*old(buf)).0, width as nat),
        leftover + fresh <= array_cells(*old(buf)).len(),
    ensures
        array_shape(*final(buf)) == array_shape(*old(buf)),
        r.complete_scans == (leftover + fresh) / (width as int),
        r.leftover == (leftover + fresh) % (width as int),
        r.rows@ == array_cells(*old(buf)).subrange(0, r.complete_scans * width),
        array_cells(*final(buf)) == array_cells(*old(buf)).subrange(
            r.complete_scans * width,
            leftover + fresh,
        ) + array_cells(*old(buf)).subrange(
            r.leftover as int,
            array_cells(*old(buf)).len() as int,
        ),
{
    let ghost b0 = array_cells(*buf);
    let ghost shape = array_shape(*buf);
    let n: usize = leftover + fresh;
    let scans: usize = n / width;
    let new_left: usize = n % width;
    proof {
        vstd::arithmetic::div_mod::lemma_fundamental_div_mod(n as int, width as int);
        assert(scans * width == width * scans) by (nonlinear_arith);
    }
    let cut: usize = n - new_left;
    let mut rows: Vec<u32> = Vec::new();
    let mut i: usize = 0;
    while i < cut
        invariant
            width >= 1,
            cut <= n <= b0.len(),
            i <= cut,
            array_cells(*buf) == b0,
            array_shape(*buf) == shape,
            grid_holds(*buf, shape.0, width as nat),
            rows@ == b0.subrange(0, i as int),
        decreases cut - i,
    {
        rows.push(code_at(buf, width, i));
        i = i + 1;
        assert(rows@ =~= b0.subrange(0, i as int));
    }
    let mut j: usize = 0;
    while j < new_left
        invariant
            width >= 1,
            cut + new_left == n,
            n <= b0.len(),
            array_shape(*buf) == shape,
            grid_holds(*buf, shape.0, width as nat),
            array_cells(*buf).len() == b0.len(),
            j <= new_left,
            forall|k: int| 0 <= k < j ==> array_cells(*buf)[k] == b0[cut + k],
            forall|k: int| j <= k < b0.len() ==> array_cells(*buf)[k] == b0[k],
        decreases new_left - j,
    {
        let v = code_at(buf, width, cut + j);
        put_code_at(buf, width, j, v);
        j = j + 1;
    }
    assert(array_cells(*buf) =~= b0.subrange(cut as int, n as int) + b0.subrange(
        new_left as int,
        b0.len() as int,
    ));
    Reassembly { rows, complete_scans: scans, leftover: new_left }
}

} // verus!
