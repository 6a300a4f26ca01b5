//! Turning the loadable sections of an object file into one flat binary that
//! reproduces their layout in memory.
use vstd::prelude::*;

verus! {

/// How a section's content is stored.
#[derive(Clone, Copy, Debug, PartialEq, Eq, Hash)]
pub enum Compression {
    /// The content is stored as is.
    Stored,
    /// The content is a zlib stream.
    Zlib,
    /// The content is a zstd stream.
    Zstd,
    /// A codec this builder does not know, by its identifier.
    Unknown(u32),
}

/// A section of an object file.
#[derive(Debug, PartialEq, Eq, Hash)]
pub struct Section {
    /// Its name; `None` where the object file's name table does not give one.
    pub name: Option<String>,
    /// The virtual address it is loaded at.
    pub address: u64,
    /// Its size in memory, that is, once decompressed.
    pub size: u64,
    /// Whether it occupies memory at run time.
    pub loadable: bool,
    /// How its content is stored.
    pub compression: Compression,
    /// Its content as stored in the file; `None` where the file does not hold it.
    pub data: Option<Vec<u8>>,
}

/// Why sections could not be turned into a flat binary.
#[derive(Debug, PartialEq, Eq, Hash)]
pub enum ExtractError {
    /// A section's name or content is missing, or a stored section's content
    /// is not as long as its size.
    CorruptObjectFile,
    /// A section uses a codec this builder does not know.
    UnsupportedCompression { format: u32, section_name: String },
    /// A compressed section could not be decompressed to its size.
    DecompressionFailed { section_name: String },
    /// A section ends past the start of the section that follows it.
    OverlappingSections,
    /// A section's end address does not fit in 64 bits.
    LayoutOverflow,
}

/// `n` copies of `pad`.
pub open spec fn padding(pad: u8, n: nat) -> Seq<u8> {
    Seq::new(n, |_i: int| pad)
}

/// The flat binary made of the first `data.len()` pieces: each piece is its
/// content followed by its gap, filled with `pad`.
pub open spec fn layout(data: Seq<Seq<u8>>, gaps: Seq<nat>, pad: u8) -> Seq<u8>
    decreases data.len(),
{
    if data.len() == 0 {
        Seq::empty()
    } else {
        let k = data.len() - 1;
        layout(data.drop_last(), gaps, pad) + data[k] + padding(pad, gaps[k])
    }
}

/// Which bytes of `layout(data, gaps, _)` are padding.
pub open spec fn padding_mask(data: Seq<Seq<u8>>, gaps: Seq<nat>) -> Seq<bool>
    decreases data.len(),
{
    if data.len() == 0 {
        Seq::empty()
    } else {
        let k = data.len() - 1;
        padding_mask(data.drop_last(), gaps) + Seq::new(data[k].len(), |_i: int| false)
            + Seq::new(gaps[k], |_i: int| true)
    }
}

/// Total length of the contents.
pub open spec fn total_content(data: Seq<Seq<u8>>) -> nat
    decreases data.len(),
{
    if data.len() == 0 {
        0
    } else {
        total_content(data.drop_last()) + data.last().len()
    }
}

/// Total length of the first `n` gaps.
pub open spec fn total_gaps(gaps: Seq<nat>, n: nat) -> nat
    decreases n,
{
    if n == 0 {
        0
    } else {
        total_gaps(gaps, (n - 1) as nat) + gaps[n - 1]
    }
}

/// The contents of the sections, in load order.
pub open spec fn contents_view(contents: Seq<Vec<u8>>) -> Seq<Seq<u8>> {
    contents.map_values(|v: Vec<u8>| v@)
}

/// Where the `k`-th section of the load order ends, its content being
/// `data[k]`.
pub open spec fn end_of(
    sections: Seq<Section>,
    order: Seq<usize>,
    data: Seq<Seq<u8>>,
    k: int,
) -> int {
    sections[order[k] as int].address + data[k].len()
}

/// The gap between the `k`-th section of the load order and the next one;
/// zero after the last.
pub open spec fn gap_of(
    sections: Seq<Section>,
    order: Seq<usize>,
    data: Seq<Seq<u8>>,
    k: int,
) -> int {
    if k + 1 < order.len() {
        sections[order[k + 1] as int].address - end_of(sections, order, data, k)
    } else {
        0
    }
}

/// The gaps between consecutive sections of the load order.
pub open spec fn gaps_of(sections: Seq<Section>, order: Seq<usize>, data: Seq<Seq<u8>>) -> Seq<
    nat,
> {
    Seq::new(order.len(), |k: int| gap_of(sections, order, data, k) as nat)
}

/// The first layout error from the `k`-th section of the load order on.
pub open spec fn layout_error_from(
    sections: Seq<Section>,
    order: Seq<usize>,
    data: Seq<Seq<u8>>,
    k: int,
) -> Option<ExtractError>
    decreases order.len() - k,
{
    if k < 0 || k + 1 >= order.len() {
        None
    } else if end_of(sections, order, data, k) > u64::MAX {
        Some(ExtractError::LayoutOverflow)
    } else if gap_of(sections, order, data, k) < 0 {
        Some(ExtractError::OverlappingSections)
    } else {
        layout_error_from(sections, order, data, k + 1)
    }
}

/// The layout error, if any, between the `k`-th section of load order `order`,
/// whose content is `len` bytes long, and the next section: its end does not
/// fit in 64 bits, or lies past the start of the next section.
pub open spec fn gap_error(sections: Seq<Section>, order: Seq<usize>, k: int, len: int) -> Option<
    ExtractError,
> {
    if k < 0 || k + 1 >= order.len() {
        None
    } else if sections[order[k] as int].address + len > u64::MAX {
        Some(ExtractError::LayoutOverflow)
    } else if sections[order[k + 1] as int].address < sections[order[k] as int].address + len {
        Some(ExtractError::OverlappingSections)
    } else {
        None
    }
}

/// Where no gap from the `k`-th on has an error, the layout from there on has
/// none.
proof fn lemma_gaps_clean(sections: Seq<Section>, order: Seq<usize>, data: Seq<Seq<u8>>, k: int)
    requires
        0 <= k,
        forall|j: int| k <= j < order.len() ==> #[trigger] gap_error(sections, order, j, data[j].len() as int) is None,
    ensures
        layout_error_from(sections, order, data, k) is None,
    decreases order.len() - k,
{
    if k + 1 < order.len() {
        assert(gap_error(sections, order, k, data[k].len() as int) is None);
        lemma_gaps_clean(sections, order, data, k + 1);
    }
}

/// Where the gaps before the `k`-th have no error and the `k`-th has one, that
/// is the first layout error from any earlier section on.
proof fn lemma_first_gap_error(
    sections: Seq<Section>,
    order: Seq<usize>,
    data: Seq<Seq<u8>>,
    i: int,
    k: int,
)
    requires
        0 <= i <= k,
        forall|j: int| 0 <= j < k ==> #[trigger] gap_error(sections, order, j, data[j].len() as int) is None,
        gap_error(sections, order, k, data[k].len() as int) is Some,
    ensures
        layout_error_from(sections, order, data, i) == gap_error(sections, order, k, data[k].len() as int),
    decreases k - i,
{
    if i < k {
        assert(gap_error(sections, order, i, data[i].len() as int) is None);
        lemma_first_gap_error(sections, order, data, i + 1, k);
    }
}

/// The flat binary of sections in load order `order`, whose contents are
/// `data`.
pub open spec fn flat(
    sections: Seq<Section>,
    order: Seq<usize>,
    data: Seq<Seq<u8>>,
    pad: u8,
) -> Seq<u8> {
    layout(data, gaps_of(sections, order, data), pad)
}

proof fn lemma_layout_error_from(
    sections: Seq<Section>,
    order: Seq<usize>,
    data: Seq<Seq<u8>>,
    k: int,
)
    requires
        0 <= k,
        layout_error_from(sections, order, data, k) is None,
    ensures
        forall|j: int|
            k <= j && j + 1 < order.len() ==> end_of(sections, order, data, j) <= u64::MAX
                && gap_of(sections, order, data, j) >= 0,
    decreases order.len() - k,
{
    if k + 1 < order.len() {
        lemma_layout_error_from(sections, order, data, k + 1);
    }
}

/// The length of a layout is the total length of its contents plus the total
/// length of its gaps.
pub proof fn lemma_layout_len(data: Seq<Seq<u8>>, gaps: Seq<nat>, pad: u8)
    ensures
        layout(data, gaps, pad).len() == total_content(data) + total_gaps(gaps, data.len()),
    decreases data.len(),
{
    if data.len() > 0 {
        lemma_layout_len(data.drop_last(), gaps, pad);
    }
}

/// For sections laid out in ascending, non-overlapping order, the flat binary
/// is exactly as long as the sections' contents together plus the gaps
/// between consecutive sections.
pub proof fn lemma_flat_len(
    sections: Seq<Section>,
    order: Seq<usize>,
    data: Seq<Seq<u8>>,
    pad: u8,
)
    requires
        data.len() == order.len(),
        layout_error_from(sections, order, data, 0) is None,
    ensures
        flat(sections, order, data, pad).len() == total_content(data)
            + total_gaps(gaps_of(sections, order, data), order.len()),
        forall|k: int|
            0 <= k && k + 1 < order.len() ==> #[trigger] gaps_of(sections, order, data)[k]
                == sections[order[k + 1] as int].address - (sections[order[k] as int].address
                + data[k].len()),
{
    lemma_layout_error_from(sections, order, data, 0);
    lemma_layout_len(data, gaps_of(sections, order, data), pad);
}

/// Changing the pad byte changes only the bytes of the padding: the layout
/// keeps its length, the padding keeps its positions, and every other byte is
/// the same.
pub proof fn lemma_layout_pad(data: Seq<Seq<u8>>, gaps: Seq<nat>, pad_1: u8, pad_2: u8)
    ensures
        layout(data, gaps, pad_1).len() == padding_mask(data, gaps).len(),
        layout(data, gaps, pad_2).len() == padding_mask(data, gaps).len(),
        forall|i: int|
            0 <= i < padding_mask(data, gaps).len() ==> if #[trigger] padding_mask(data, gaps)[i] {
                layout(data, gaps, pad_1)[i] == pad_1 && layout(data, gaps, pad_2)[i] == pad_2
            } else {
                layout(data, gaps, pad_1)[i] == layout(data, gaps, pad_2)[i]
            },
    decreases data.len(),
{
    if data.len() > 0 {
        let k = data.len() - 1;
        lemma_layout_pad(data.drop_last(), gaps, pad_1, pad_2);
        let m0 = padding_mask(data.drop_last(), gaps);
        let a0 = layout(data.drop_last(), gaps, pad_1);
        let b0 = layout(data.drop_last(), gaps, pad_2);
        let m = padding_mask(data, gaps);
        let a = layout(data, gaps, pad_1);
        let b = layout(data, gaps, pad_2);
        assert forall|i: int| 0 <= i < m.len() implies if #[trigger] m[i] {
            a[i] == pad_1 && b[i] == pad_2
        } else {
            a[i] == b[i]
        } by {
            if i < m0.len() {
                assert(m[i] == m0[i]);
                assert(a[i] == a0[i]);
                assert(b[i] == b0[i]);
            } else if i < m0.len() + data[k].len() {
                assert(!m[i]);
                assert(a[i] == data[k][i - m0.len()]);
                assert(b[i] == data[k][i - m0.len()]);
            } else {
                assert(m[i]);
                assert(a[i] == pad_1);
                assert(b[i] == pad_2);
            }
        }
    }
}

/// Changing the pad byte of a flat binary changes only its padding: the
/// binary keeps its length, the padding keeps its positions, and every byte of
/// a section's content stays the same.
pub proof fn lemma_flat_pad(
    sections: Seq<Section>,
    order: Seq<usize>,
    data: Seq<Seq<u8>>,
    pad_1: u8,
    pad_2: u8,
)
    ensures
        flat(sections, order, data, pad_1).len() == flat(sections, order, data, pad_2).len(),
        forall|i: int|
            0 <= i < flat(sections, order, data, pad_1).len() ==> if #[trigger] padding_mask(
                data,
                gaps_of(sections, order, data),
            )[i] {
                flat(sections, order, data, pad_1)[i] == pad_1 && flat(sections, order, data, pad_2)[i]
                    == pad_2
            } else {
                flat(sections, order, data, pad_1)[i] == flat(sections, order, data, pad_2)[i]
            },
{
    lemma_layout_pad(data, gaps_of(sections, order, data), pad_1, pad_2);
}

/// Writes the sections in load order `order`, whose contents are `contents`,
/// to `sink`: each section's content, then as many `pad` bytes as there are
/// between its end and the start of the next section. Checks the whole layout
/// before writing anything. Returns the number of bytes written.
pub fn write_flat(
    sections: &Vec<Section>,
    order: &Vec<usize>,
    contents: &Vec<Vec<u8>>,
    pad: u8,
    sink: &mut Vec<u8>,
) -> (r: Result<u64, ExtractError>)
    requires
        contents@.len() == order@.len(),
        forall|k: int| 0 <= k < order@.len() ==> order@[k] < sections@.len(),
    ensures
        r is Err <==> layout_error_from(sections@, order@, contents_view(contents@), 0) is Some,
        r matches Err(e) ==> Some(e) == layout_error_from(
            sections@,
            order@,
            contents_view(contents@),
            0,
        ) && final(sink)@ == old(sink)@,
        r matches Ok(n) ==> final(sink)@ == old(sink)@ + flat(
            sections@,
            order@,
            contents_view(contents@),
            pad,
        ) && n == flat(sections@, order@, contents_view(contents@), pad).len(),
{
    let n: usize = order.len();
    let ghost secs = sections@;
    let ghost ord = order@;
    let ghost cts = contents_view(contents@);
    let mut gaps: Vec<u64> = Vec::new();
    let mut k: usize = 0;
    while k < n
        invariant
            n == ord.len(),
            cts.len() == n,
            secs == sections@,
            ord == order@,
            cts == contents_view(contents@),
            forall|j: int| 0 <= j < n ==> ord[j] < secs.len(),
            k <= n,
            gaps@.len() == k,
            forall|j: int| 0 <= j < k ==> gaps@[j] == gap_of(secs, ord, cts, j),
            layout_error_from(secs, ord, cts, 0) == layout_error_from(secs, ord, cts, k as int),
        decreases n - k,
    {
        if k + 1 < n {
            let s = &sections[order[k]];
            let len: usize = contents[k].len();
            if s.address as u128 + len as u128 > u64::MAX as u128 {
                return Err(ExtractError::LayoutOverflow);
            }
            let end: u64 = s.address + len as u64;
            let next: u64 = sections[order[k + 1]].address;
            if next < end {
                return Err(ExtractError::OverlappingSections);
            }
            gaps.push(next - end);
        } else {
            gaps.push(0);
        }
        k = k + 1;
    }
    let start: usize = sink.len();
    let ghost data = cts;
    let ghost gs = gaps_of(secs, ord, cts);
    let mut k: usize = 0;
    while k < n
        invariant
            n == ord.len(),
            cts.len() == n,
            cts == contents_view(contents@),
            data == cts,
            gs == gaps_of(secs, ord, cts),
            gaps@.len() == n,
            forall|j: int| 0 <= j < n ==> gaps@[j] == gap_of(secs, ord, cts, j),
            k <= n,
            start <= sink@.len(),
            sink@ == old(sink)@ + layout(data.subrange(0, k as int), gs, pad),
        decreases n - k,
    {
        let ghost before = sink@;
        sink.extend_from_slice(contents[k].as_slice());
        let g: u64 = gaps[k];
        let mut i: u64 = 0;
        while i < g
            invariant
                i <= g,
                sink@ == before + cts[k as int] + padding(pad, i as nat),
            decreases g - i,
        {
            sink.push(pad);
            i = i + 1;
            assert(sink@ =~= before + cts[k as int] + padding(pad, i as nat));
        }
        proof {
            let d = data.subrange(0, k + 1);
            assert(d.drop_last() =~= data.subrange(0, k as int));
            assert(d[k as int] == cts[k as int]);
            assert(gs[k as int] == g as nat);
            assert(sink@ =~= old(sink)@ + layout(d, gs, pad));
        }
        k = k + 1;
    }
    proof {
        assert(data.subrange(0, n as int) =~= data);
    }
    let written: usize = sink.len() - start;
    Ok(written as u64)
}


/// Whether section `i` comes before section `j` in load order: by address,
/// and, at equal addresses, in the order the object file lists them.
pub open spec fn precedes(sections: Seq<Section>, i: int, j: int) -> bool {
    sections[i].address < sections[j].address || (sections[i].address == sections[j].address
        && i < j)
}

/// Whether `order` lists exactly the loadable sections, each once, in load
/// order.
pub open spec fn is_load_order(sections: Seq<Section>, order: Seq<usize>) -> bool {
    &&& forall|k: int|
        0 <= k < order.len() ==> #[trigger] order[k] < sections.len()
            && sections[order[k] as int].loadable
    &&& forall|i: int| 0 <= i < sections.len() && #[trigger] sections[i].loadable ==> order.contains(i as usize)
    &&& forall|a: int, b: int|
        0 <= a < b < order.len() ==> precedes(sections, #[trigger] order[a] as int, #[trigger] order[b] as int)
}

/// Whether `order` is sorted strictly by `precedes`.
pub open spec fn strictly_sorted(sections: Seq<Section>, order: Seq<usize>) -> bool {
    forall|a: int, b: int|
        0 <= a < b < order.len() ==> precedes(sections, #[trigger] order[a] as int, #[trigger] order[b] as int)
}

/// Two sequences sorted strictly by `precedes` that hold the same indices are
/// the same sequence.
proof fn lemma_sorted_unique(sections: Seq<Section>, o1: Seq<usize>, o2: Seq<usize>)
    requires
        strictly_sorted(sections, o1),
        strictly_sorted(sections, o2),
        forall|x: usize| o1.contains(x) <==> o2.contains(x),
    ensures
        o1 == o2,
    decreases o1.len(),
{
    if o1.len() == 0 {
        if o2.len() > 0 {
            assert(o2.contains(o2[0]));
        }
        assert(o1 =~= o2);
    } else {
        assert(o1.contains(o1[0]));
        assert(o2.len() > 0);
        assert(o2.contains(o2[0]));
        if o1[0] != o2[0] {
            let q = choose|q: int| 0 <= q < o2.len() && o2[q] == o1[0];
            let r = choose|r: int| 0 <= r < o1.len() && o1[r] == o2[0];
            assert(precedes(sections, o2[0] as int, o2[q] as int));
            assert(precedes(sections, o1[0] as int, o1[r] as int));
        }
        let t1 = o1.drop_first();
        let t2 = o2.drop_first();
        assert forall|x: usize| t1.contains(x) <==> t2.contains(x) by {
            if t1.contains(x) {
                let k = choose|k: int| 0 <= k < t1.len() && t1[k] == x;
                assert(o1[k + 1] == x);
                assert(precedes(sections, o1[0] as int, o1[k + 1] as int));
                assert(o2.contains(x));
                let m = choose|m: int| 0 <= m < o2.len() && o2[m] == x;
                assert(m != 0);
                assert(t2[m - 1] == x);
            }
            if t2.contains(x) {
                let k = choose|k: int| 0 <= k < t2.len() && t2[k] == x;
                assert(o2[k + 1] == x);
                assert(precedes(sections, o2[0] as int, o2[k + 1] as int));
                assert(o1.contains(x));
                let m = choose|m: int| 0 <= m < o1.len() && o1[m] == x;
                assert(m != 0);
                assert(t1[m - 1] == x);
            }
        }
        assert forall|a: int, b: int| 0 <= a < b < t1.len() implies precedes(sections, #[trigger] t1[a] as int, #[trigger] t1[b] as int) by {
            assert(precedes(sections, o1[a + 1] as int, o1[b + 1] as int));
        }
        assert forall|a: int, b: int| 0 <= a < b < t2.len() implies precedes(sections, #[trigger] t2[a] as int, #[trigger] t2[b] as int) by {
            assert(precedes(sections, o2[a + 1] as int, o2[b + 1] as int));
        }
        lemma_sorted_unique(sections, t1, t2);
        assert(o1 =~= seq![o1[0]] + t1);
        assert(o2 =~= seq![o2[0]] + t2);
    }
}

/// There is only one load order of a list of sections.
pub proof fn lemma_load_order_unique(sections: Seq<Section>, o1: Seq<usize>, o2: Seq<usize>)
    requires
        is_load_order(sections, o1),
        is_load_order(sections, o2),
    ensures
        o1 == o2,
{
    assert forall|x: usize| o1.contains(x) <==> o2.contains(x) by {
        if o1.contains(x) {
            let k = choose|k: int| 0 <= k < o1.len() && o1[k] == x;
            assert(sections[o1[k] as int].loadable);
        }
        if o2.contains(x) {
            let k = choose|k: int| 0 <= k < o2.len() && o2[k] == x;
            assert(sections[o2[k] as int].loadable);
        }
    }
    lemma_sorted_unique(sections, o1, o2);
}

/// The load order of `sections`.
pub open spec fn load_order_of(sections: Seq<Section>) -> Seq<usize> {
    choose|order: Seq<usize>| is_load_order(sections, order)
}

/// The indices of the loadable sections, sorted by address; sections at the
/// same address keep the order in which the object file lists them.
pub fn load_order(sections: &Vec<Section>) -> (r: Vec<usize>)
    ensures
        is_load_order(sections@, r@),
        r@ == load_order_of(sections@),
{
    let ghost secs = sections@;
    let n: usize = sections.len();
    let mut order: Vec<usize> = Vec::new();
    let mut i: usize = 0;
    while i < n
        invariant
            n == secs.len(),
            secs == sections@,
            i <= n,
            forall|k: int|
                0 <= k < order@.len() ==> #[trigger] order@[k] < i && secs[order@[k] as int].loadable,
            forall|j: int| 0 <= j < i && #[trigger] secs[j].loadable ==> order@.contains(j as usize),
            forall|a: int, b: int|
                0 <= a < b < order@.len() ==> precedes(secs, #[trigger] order@[a] as int, #[trigger] order@[b] as int),
        decreases n - i,
    {
        if sections[i].loadable {
            let address: u64 = sections[i].address;
            let mut p: usize = 0;
            while p < order.len() && sections[order[p]].address <= address
                invariant
                    p <= order@.len(),
                    forall|k: int| 0 <= k < order@.len() ==> #[trigger] order@[k] < i,
                    i < n,
                    n == secs.len(),
                    secs == sections@,
                    address == secs[i as int].address,
                    forall|q: int| 0 <= q < p ==> secs[#[trigger] order@[q] as int].address <= address,
                decreases order@.len() - p,
            {
                p = p + 1;
            }
            let ghost prev = order@;
            proof {
                assert forall|q: int| p <= q < prev.len() implies secs[#[trigger] prev[q] as int].address
                    > address by {
                    if q > p {
                        assert(precedes(secs, prev[p as int] as int, prev[q] as int));
                    }
                }
            }
            order.insert(p, i);
            proof {
                let cur = order@;
                assert(cur =~= prev.subrange(0, p as int).push(i) + prev.subrange(p as int, prev.len() as int));
                assert forall|k: int| 0 <= k < cur.len() implies #[trigger] cur[k] < i + 1 && secs[cur[k] as int].loadable by {
                    if k < p { assert(cur[k] == prev[k]); }
                    else if k > p { assert(cur[k] == prev[k - 1]); }
                }
                assert forall|j: int| 0 <= j < i + 1 && #[trigger] secs[j].loadable implies cur.contains(j as usize) by {
                    if j == i {
                        assert(cur[p as int] == i);
                    } else {
                        assert(prev.contains(j as usize));
                        let q = choose|q: int| 0 <= q < prev.len() && prev[q] == j as usize;
                        if q < p { assert(cur[q] == j as usize); }
                        else { assert(cur[q + 1] == j as usize); }
                    }
                }
                assert forall|a: int, b: int| 0 <= a < b < cur.len() implies precedes(secs, #[trigger] cur[a] as int, #[trigger] cur[b] as int) by {
                    if b < p {
                        assert(precedes(secs, prev[a] as int, prev[b] as int));
                    } else if b == p {
                        assert(cur[a] == prev[a]);
                    } else if a < p {
                        assert(cur[b] == prev[b - 1]);
                        assert(precedes(secs, prev[a] as int, prev[b - 1] as int));
                    } else if a == p {
                        assert(cur[b] == prev[b - 1]);
                    } else {
                        assert(precedes(secs, prev[a - 1] as int, prev[b - 1] as int));
                    }
                }
            }
        }
        i = i + 1;
    }
    proof {
        assert(is_load_order(secs, order@));
        lemma_load_order_unique(secs, order@, load_order_of(secs));
    }
    order
}

/// The first output room tried when decoding a zstd section; it doubles
/// while the decoder reports that the content does not fit.
pub const ZSTD_FIRST_ROOM: usize = 0x10000;

/// What miniz_oxide's zlib decoder makes of a stream: the whole decompressed
/// content, or `None` where it refuses the stream.
pub uninterp spec fn zlib_inflate(stream: Seq<u8>) -> Option<Seq<u8>>;

/// What ruzstd's frame decoder makes of a sequence of zstd frames: the whole
/// decompressed content, or `None` where it refuses them.
pub uninterp spec fn zstd_decode(stream: Seq<u8>) -> Option<Seq<u8>>;

/// Relies on miniz_oxide::inflate::decompress_to_vec_zlib_with_limit: it
/// succeeds exactly when the stream decodes to fewer than `limit` bytes (the
/// output only grows as data is decoded, up to `limit`), and then returns the
/// whole content.
#[verifier::external_body]
fn inflate_zlib(stream: &[u8], limit: usize) -> (r: Option<Vec<u8>>)
    ensures
        r matches Some(v) ==> zlib_inflate(stream@) == Some(v@) && v@.len() <= limit,
        r is None ==> !(zlib_inflate(stream@) matches Some(b) && b.len() < limit),
{
    miniz_oxide::inflate::decompress_to_vec_zlib_with_limit(stream, limit).ok()
}

/// Why ruzstd's frame decoder stopped.
#[derive(Clone, Copy, Debug, PartialEq, Eq, Hash)]
pub enum ZstdFailure {
    /// The content does not fit in the room given.
    TooSmall,
    /// The frames are refused.
    Refused,
}

/// Relies on ruzstd's FrameDecoder::decode_all_to_vec, into a vector of at
/// least `capacity` bytes of room: it succeeds only when every frame was
/// drained whole into the output, and does whenever the content fits. Running
/// out of room is reported as `TargetTooSmall`; every other error comes from
/// the frames themselves, whatever the room.
#[verifier::external_body]
fn decode_zstd(stream: &[u8], capacity: usize) -> (r: Result<Vec<u8>, ZstdFailure>)
    requires
        capacity <= isize::MAX,
    ensures
        r matches Ok(v) ==> zstd_decode(stream@) == Some(v@),
        r is Err ==> !(zstd_decode(stream@) matches Some(b) && b.len() <= capacity),
        r matches Err(ZstdFailure::Refused) ==> zstd_decode(stream@) is None,
{
    let mut out: Vec<u8> = Vec::with_capacity(capacity);
    match ruzstd::decoding::FrameDecoder::new().decode_all_to_vec(stream, &mut out) {
        Ok(()) => Ok(out),
        Err(ruzstd::decoding::errors::FrameDecoderError::TargetTooSmall) => Err(ZstdFailure::TooSmall),
        Err(_) => Err(ZstdFailure::Refused),
    }
}

/// Whether this builder can tell a section's content without asking a codec:
/// the section is stored as is, and the file gives its name and its content,
/// as long as its size.
pub open spec fn is_plain(s: Section) -> bool {
    &&& s.name is Some
    &&& s.data is Some
    &&& s.compression == Compression::Stored
    &&& s.data->Some_0@.len() == s.size
}

/// Whether a section can be decoded: the file gives its name and content, and
/// either it is stored as is, as long as its size, or its codec is one this
/// builder knows and decodes it to exactly its size, which a vector can hold.
pub open spec fn is_decodable(s: Section) -> bool {
    &&& s.name is Some
    &&& s.data is Some
    &&& match s.compression {
        Compression::Stored => s.data->Some_0@.len() == s.size,
        Compression::Zlib => s.size <= isize::MAX && (zlib_inflate(s.data->Some_0@) matches Some(b)
            && b.len() == s.size),
        Compression::Zstd => s.size <= isize::MAX && (zstd_decode(s.data->Some_0@) matches Some(b)
            && b.len() == s.size),
        Compression::Unknown(_) => false,
    }
}

/// Whether `e` is the error for a section that cannot be decoded: a missing
/// name or content, or a stored content not as long as the section, is a
/// corrupt file; an unknown codec is unsupported; a known codec that fails is a
/// failed decompression. The errors name the section.
pub open spec fn decode_failure(s: Section, e: ExtractError) -> bool {
    match (s.name, s.data) {
        (Some(n), Some(_)) => match s.compression {
            Compression::Stored => e == ExtractError::CorruptObjectFile,
            Compression::Unknown(f) => e matches ExtractError::UnsupportedCompression {
                format,
                section_name,
            } && format == f && section_name@ == n@,
            _ => e matches ExtractError::DecompressionFailed { section_name } && section_name@ == n@,
        },
        _ => e == ExtractError::CorruptObjectFile,
    }
}

/// The content of a decodable section, as it lies in memory.
pub open spec fn decoded(s: Section) -> Seq<u8> {
    match s.compression {
        Compression::Zlib => zlib_inflate(s.data->Some_0@)->Some_0,
        Compression::Zstd => zstd_decode(s.data->Some_0@)->Some_0,
        _ => s.data->Some_0@,
    }
}

/// The contents of the sections of a load order, as they lie in memory.
pub open spec fn decoded_all(sections: Seq<Section>, order: Seq<usize>) -> Seq<Seq<u8>> {
    Seq::new(order.len(), |k: int| decoded(sections[order[k] as int]))
}

/// Decodes a section's content into the bytes it occupies in memory.
pub fn decode_section(s: &Section) -> (r: Result<Vec<u8>, ExtractError>)
    ensures
        r is Ok <==> is_decodable(*s),
        r matches Ok(v) ==> v@ == decoded(*s),
        r matches Err(e) ==> decode_failure(*s, e),
{
    let name = match &s.name {
        Some(n) => n,
        None => return Err(ExtractError::CorruptObjectFile),
    };
    let data = match &s.data {
        Some(d) => d,
        None => return Err(ExtractError::CorruptObjectFile),
    };
    let size: u64 = s.size;
    match s.compression {
        Compression::Stored => {
            if data.len() as u64 != size {
                return Err(ExtractError::CorruptObjectFile);
            }
            let mut out: Vec<u8> = Vec::new();
            out.extend_from_slice(data.as_slice());
            Ok(out)
        },
        Compression::Unknown(format) => Err(
            ExtractError::UnsupportedCompression { format, section_name: name.clone() },
        ),
        Compression::Zlib => {
            if size > isize::MAX as u64 {
                return Err(ExtractError::DecompressionFailed { section_name: name.clone() });
            }
            match inflate_zlib(data.as_slice(), size as usize + 1) {
                Some(v) if v.len() as u64 == size => Ok(v),
                _ => Err(ExtractError::DecompressionFailed { section_name: name.clone() }),
            }
        },
        Compression::Zstd => {
            if size > isize::MAX as u64 {
                return Err(ExtractError::DecompressionFailed { section_name: name.clone() });
            }
            match decode_zstd_growing(data.as_slice(), size as usize) {
                Some(v) => Ok(v),
                None => Err(ExtractError::DecompressionFailed { section_name: name.clone() }),
            }
        },
    }
}

/// Decodes zstd frames whose content is expected to be `size` bytes long,
/// giving the decoder more room only while it reports that the content does
/// not fit, so that nothing is allocated for content that is not there.
/// Returns the content exactly when it is `size` bytes long.
fn decode_zstd_growing(stream: &[u8], size: usize) -> (r: Option<Vec<u8>>)
    requires
        size <= isize::MAX,
    ensures
        r is Some <==> (zstd_decode(stream@) matches Some(b) && b.len() == size),
        r matches Some(v) ==> zstd_decode(stream@) == Some(v@),
{
    let mut room: usize = if size < ZSTD_FIRST_ROOM { size } else { ZSTD_FIRST_ROOM };
    loop
        invariant
            room <= size <= isize::MAX,
            size < ZSTD_FIRST_ROOM ==> room == size,
            room > 0 || room == size,
        decreases size - room,
    {
        match decode_zstd(stream, room) {
            Ok(v) => {
                if v.len() == size {
                    return Some(v);
                }
                return None;
            },
            Err(ZstdFailure::Refused) => {
                return None;
            },
            Err(ZstdFailure::TooSmall) => {
                if room == size {
                    return None;
                }
                room = if size - room < room { size } else { room * 2 };
            },
        }
    }
}

/// Whether the first `n` sections of load order `order` all decode.
pub open spec fn decodable_upto(sections: Seq<Section>, order: Seq<usize>, n: int) -> bool {
    forall|k: int| 0 <= k < n ==> is_decodable(sections[#[trigger] order[k] as int])
}

/// Whether extracting `sections` succeeds: every loadable section decodes and
/// the sections do not overlap in load order.
pub open spec fn extract_succeeds(sections: Seq<Section>) -> bool {
    let order = load_order_of(sections);
    &&& decodable_upto(sections, order, order.len() as int)
    &&& layout_error_from(sections, order, decoded_all(sections, order), 0) is None
}

/// Whether nothing fails before the `k`-th section of load order `order` is
/// decoded: every section before it decodes, and none of them runs into the
/// section after it.
pub open spec fn clean_before(sections: Seq<Section>, order: Seq<usize>, k: int) -> bool {
    &&& decodable_upto(sections, order, k)
    &&& forall|j: int|
        0 <= j < k ==> #[trigger] gap_error(sections, order, j, decoded(sections[order[j] as int]).len() as int) is None
}

/// Whether `e` is the error of extracting `sections`. The sections are taken
/// one by one in load order: each is decoded, then its end is checked against
/// the start of the next. `e` is the first failure on that way: the decoding
/// error of a section that does not decode, or the layout error after one that
/// does.
pub open spec fn extract_error(sections: Seq<Section>, e: ExtractError) -> bool {
    let order = load_order_of(sections);
    exists|k: int|
        0 <= k < order.len() && clean_before(sections, order, k) && {
            let s = #[trigger] sections[order[k] as int];
            if is_decodable(s) {
                gap_error(sections, order, k, decoded(s).len() as int) == Some(e)
            } else {
                decode_failure(s, e)
            }
        }
}

/// Whether `out` is the flat binary of `sections` with pad byte `pad`: every
/// loadable section decodes, the sections do not overlap in load order, and
/// `out` holds each decoded section at its offset from the first, with `pad`
/// in between.
pub open spec fn extracted(sections: Seq<Section>, pad: u8, out: Seq<u8>) -> bool {
    let order = load_order_of(sections);
    &&& extract_succeeds(sections)
    &&& out == flat(sections, order, decoded_all(sections, order), pad)
}

proof fn lemma_decode_failure(sections: Seq<Section>, k: int, e: ExtractError)
    requires
        0 <= k < load_order_of(sections).len(),
        clean_before(sections, load_order_of(sections), k),
        !is_decodable(sections[load_order_of(sections)[k] as int]),
        decode_failure(sections[load_order_of(sections)[k] as int], e),
    ensures
        extract_error(sections, e),
        !extract_succeeds(sections),
{
    let order = load_order_of(sections);
    assert(!decodable_upto(sections, order, order.len() as int));
}

proof fn lemma_gap_failure(sections: Seq<Section>, k: int, e: ExtractError)
    requires
        0 <= k < load_order_of(sections).len(),
        clean_before(sections, load_order_of(sections), k),
        is_decodable(sections[load_order_of(sections)[k] as int]),
        gap_error(
            sections,
            load_order_of(sections),
            k,
            decoded(sections[load_order_of(sections)[k] as int]).len() as int,
        ) == Some(e),
    ensures
        extract_error(sections, e),
        !extract_succeeds(sections),
{
    let order = load_order_of(sections);
    let data = decoded_all(sections, order);
    assert forall|j: int| 0 <= j < k implies #[trigger] gap_error(sections, order, j, data[j].len() as int) is None by {
        assert(data[j] == decoded(sections[order[j] as int]));
    }
    assert(data[k] == decoded(sections[order[k] as int]));
    lemma_first_gap_error(sections, order, data, 0, k);
}

/// Turns the loadable sections into one flat binary written to `sink`: each
/// decoded section in load order, followed by `pad` bytes up to the address of
/// the next. The sections are taken one by one: each is decoded, then checked
/// against the start of the next, and the first failure is the error. Nothing
/// is written until every section has passed, so on failure `sink` is left as
/// it was. Returns the number of bytes written.
pub fn extract(sections: &Vec<Section>, pad: u8, sink: &mut Vec<u8>) -> (r: Result<u64, ExtractError>)
    ensures
        r is Ok <==> extract_succeeds(sections@),
        r matches Ok(n) ==> extracted(sections@, pad, final(sink)@.subrange(
            old(sink)@.len() as int,
            final(sink)@.len() as int,
        )) && final(sink)@.subrange(0, old(sink)@.len() as int) == old(sink)@
            && n == final(sink)@.len() - old(sink)@.len(),
        r matches Err(e) ==> extract_error(sections@, e) && final(sink)@ == old(sink)@,
        (exists|i: int|
            0 <= i < sections@.len() && sections@[i].loadable && !is_decodable(#[trigger] sections@[i]))
            ==> (r is Err && final(sink)@ == old(sink)@),
{
    let order = load_order(sections);
    let count: usize = sections.len();
    let ghost secs = sections@;
    let n: usize = order.len();
    let mut contents: Vec<Vec<u8>> = Vec::new();
    let mut k: usize = 0;
    while k < n
        invariant
            secs == sections@,
            n == order@.len(),
            is_load_order(secs, order@),
            order@ == load_order_of(secs),
            k <= n,
            contents@.len() == k,
            clean_before(secs, order@, k as int),
            forall|j: int| 0 <= j < k ==> (#[trigger] contents@[j])@ == decoded(secs[order@[j] as int]),
        decreases n - k,
    {
        assert(order@[k as int] < secs.len());
        let v = match decode_section(&sections[order[k]]) {
            Ok(v) => v,
            Err(e) => {
                proof {
                    lemma_decode_failure(secs, k as int, e);
                }
                return Err(e);
            },
        };
        if k + 1 < n {
            let s = &sections[order[k]];
            let len: usize = v.len();
            assert(order@[k + 1] < secs.len());
            let next: u64 = sections[order[k + 1]].address;
            if s.address as u128 + len as u128 > u64::MAX as u128 {
                proof {
                    lemma_gap_failure(secs, k as int, ExtractError::LayoutOverflow);
                }
                return Err(ExtractError::LayoutOverflow);
            }
            if (next as u128) < s.address as u128 + len as u128 {
                proof {
                    lemma_gap_failure(secs, k as int, ExtractError::OverlappingSections);
                }
                return Err(ExtractError::OverlappingSections);
            }
        }
        contents.push(v);
        k = k + 1;
    }
    proof {
        let data = decoded_all(secs, order@);
        assert(contents_view(contents@) =~= data);
        assert(decodable_upto(secs, order@, order@.len() as int));
        assert forall|j: int| 0 <= j < order@.len() implies #[trigger] gap_error(secs, order@, j, data[j].len() as int) is None by {
            assert(data[j] == decoded(secs[order@[j] as int]));
        }
        lemma_gaps_clean(secs, order@, data, 0);
        assert forall|i: int| 0 <= i < secs.len() && secs[i].loadable implies is_decodable(#[trigger] secs[i]) by {
            assert(i < count);
            assert(order@.contains(i as usize));
            let q = choose|q: int| 0 <= q < order@.len() && order@[q] == i as usize;
            assert(is_decodable(secs[order@[q] as int]));
        }
    }
    let ghost before = sink@;
    let r = write_flat(sections, &order, &contents, pad, sink);
    proof {
        if r is Ok {
            assert(sink@.subrange(before.len() as int, sink@.len() as int) =~= flat(
                secs,
                order@,
                decoded_all(secs, order@),
                pad,
            ));
            assert(sink@.subrange(0, before.len() as int) =~= before);
        }
    }
    r
}

/// The flat binary that extraction produces is as long as the decoded
/// sections together plus the gaps between consecutive sections in load order.
pub proof fn lemma_extracted_len(sections: Seq<Section>, pad: u8, out: Seq<u8>)
    requires
        extracted(sections, pad, out),
    ensures
        out.len() == total_content(decoded_all(sections, load_order_of(sections))) + total_gaps(
            gaps_of(sections, load_order_of(sections), decoded_all(sections, load_order_of(sections))),
            load_order_of(sections).len(),
        ),
{
    lemma_flat_len(sections, load_order_of(sections), decoded_all(sections, load_order_of(sections)), pad);
}

/// Extracting the same sections with two pad bytes gives two binaries of the
/// same length that differ only in the padding, which sits at the same
/// positions in both.
pub proof fn lemma_extracted_pad(sections: Seq<Section>, pad_1: u8, pad_2: u8, out_1: Seq<u8>, out_2: Seq<u8>)
    requires
        extracted(sections, pad_1, out_1),
        extracted(sections, pad_2, out_2),
    ensures
        out_1.len() == out_2.len(),
        forall|i: int|
            0 <= i < out_1.len() ==> if #[trigger] padding_mask(
                decoded_all(sections, load_order_of(sections)),
                gaps_of(sections, load_order_of(sections), decoded_all(sections, load_order_of(sections))),
            )[i] {
                out_1[i] == pad_1 && out_2[i] == pad_2
            } else {
                out_1[i] == out_2[i]
            },
{
    let order = load_order_of(sections);
    let data = decoded_all(sections, order);
    lemma_layout_pad(data, gaps_of(sections, order, data), pad_1, pad_2);
}

} // verus!
