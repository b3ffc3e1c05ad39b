//! Reversal of PNG-style per-scanline filters (None, Sub, Up, Average, Paeth).
use vstd::prelude::*;

verus! {

/// `(x + v) mod 256`, the byte arithmetic of PNG filters.
pub open spec fn add_mod(x: u8, v: u8) -> u8 {
    ((x as int + v as int) % 256) as u8
}

/// `(x - v) mod 256`.
pub open spec fn sub_mod(x: u8, v: u8) -> u8 {
    ((x as int - v as int + 256) % 256) as u8
}

pub open spec fn abs_int(x: int) -> int {
    if x < 0 { -x } else { x }
}

/// The Paeth predictor: the neighbour closest to `a + b - c`, ties going to
/// `a`, then `b`, then `c`.
pub open spec fn paeth_spec(a: u8, b: u8, c: u8) -> u8 {
    let p = a as int + b as int - c as int;
    let pa = abs_int(p - a as int);
    let pb = abs_int(p - b as int);
    let pc = abs_int(p - c as int);
    if pa <= pb && pa <= pc {
        a
    } else if pb <= pc {
        b
    } else {
        c
    }
}

/// The value that a filter type predicts from the left (`a`), upper (`b`)
/// and upper-left (`c`) neighbours; unknown filter types predict zero.
pub open spec fn predicted(filter: u8, a: u8, b: u8, c: u8) -> u8 {
    if filter == 1 {
        a
    } else if filter == 2 {
        b
    } else if filter == 3 {
        ((a as int + b as int) / 2) as u8
    } else if filter == 4 {
        paeth_spec(a, b, c)
    } else {
        0
    }
}

/// The first `n` reconstructed bytes of a row, from its filtered bytes `raw`
/// and the reconstructed row above `prev`; `comp` is the bytes per pixel.
pub open spec fn unfilter_prefix(filter: u8, raw: Seq<u8>, prev: Seq<u8>, comp: nat, n: nat) -> Seq<u8>
    decreases n,
{
    if n == 0 {
        Seq::empty()
    } else {
        let d = unfilter_prefix(filter, raw, prev, comp, (n - 1) as nat);
        let i = n - 1;
        let a = if i >= comp { d[i - comp] } else { 0u8 };
        let c = if i >= comp { prev[i - comp] } else { 0u8 };
        d.push(add_mod(raw[i], predicted(filter, a, prev[i], c)))
    }
}

/// The filtered form of row `orig` under `filter`, with `prev` the row above.
pub open spec fn filter_row(filter: u8, orig: Seq<u8>, prev: Seq<u8>, comp: nat) -> Seq<u8> {
    Seq::new(
        orig.len(),
        |i: int|
            {
                let a = if i >= comp { orig[i - comp] } else { 0u8 };
                let c = if i >= comp { prev[i - comp] } else { 0u8 };
                sub_mod(orig[i], predicted(filter, a, prev[i], c))
            },
    )
}

pub open spec fn zero_row(stride: nat) -> Seq<u8> {
    Seq::new(stride, |i: int| 0u8)
}

/// The reconstructed bytes of the first `r` rows of `data`, each row being a
/// filter-type byte followed by `stride` filtered bytes.
pub open spec fn unfilter_rows(data: Seq<u8>, stride: nat, comp: nat, r: nat) -> Seq<u8>
    decreases r,
{
    if r == 0 {
        Seq::empty()
    } else {
        let before = unfilter_rows(data, stride, comp, (r - 1) as nat);
        let prev = if r == 1 {
            zero_row(stride)
        } else {
            before.subrange((before.len() - stride) as int, before.len() as int)
        };
        let row = data.subrange(((r - 1) * (stride + 1)) as int, (r * (stride + 1)) as int);
        before + unfilter_prefix(row[0], row.subrange(1, stride + 1 as int), prev, comp, stride)
    }
}

/// Row `r` of a raster of `stride` bytes per row.
pub open spec fn row_of(pixels: Seq<u8>, stride: nat, r: int) -> Seq<u8> {
    pixels.subrange((r * stride) as int, ((r + 1) * stride) as int)
}

/// The PNG-filtered form of the first `r` rows of `pixels`, with filter type
/// `types[k]` on row `k`.
pub open spec fn filter_rows(pixels: Seq<u8>, stride: nat, comp: nat, types: Seq<u8>, r: nat) -> Seq<u8>
    decreases r,
{
    if r == 0 {
        Seq::empty()
    } else {
        let k = r - 1;
        let prev = if k == 0 { zero_row(stride) } else { row_of(pixels, stride, k - 1) };
        filter_rows(pixels, stride, comp, types, (r - 1) as nat) + seq![types[k]] + filter_row(
            types[k],
            row_of(pixels, stride, k),
            prev,
            comp,
        )
    }
}

proof fn lemma_add_sub_mod(x: u8, v: u8)
    ensures
        add_mod(sub_mod(x, v), v) == x,
{
    let d = (x as int - v as int + 256) % 256;
    assert(0 <= d < 256);
    assert((d + v as int) % 256 == x as int) by {
        if x >= v {
            assert(d == x - v);
        } else {
            assert(d == x - v + 256);
        }
    }
}

/// Reconstructing a filtered row gives the row back, for every filter type.
pub proof fn lemma_unfilter_row(filter: u8, orig: Seq<u8>, prev: Seq<u8>, comp: nat, n: nat)
    requires
        comp > 0,
        n <= orig.len(),
        prev.len() == orig.len(),
    ensures
        unfilter_prefix(filter, filter_row(filter, orig, prev, comp), prev, comp, n) == orig.subrange(0, n as int),
    decreases n,
{
    if n > 0 {
        let raw = filter_row(filter, orig, prev, comp);
        lemma_unfilter_row(filter, orig, prev, comp, (n - 1) as nat);
        let i = n - 1;
        let a = if i >= comp { orig[i - comp] } else { 0u8 };
        let c = if i >= comp { prev[i - comp] } else { 0u8 };
        lemma_add_sub_mod(orig[i], predicted(filter, a, prev[i], c));
        let d = unfilter_prefix(filter, raw, prev, comp, (n - 1) as nat);
        assert(d =~= orig.subrange(0, i));
        if i >= comp {
            assert(d[i - comp] == a);
        }
        assert(raw[i] == sub_mod(orig[i], predicted(filter, a, prev[i], c)));
        assert(unfilter_prefix(filter, raw, prev, comp, n) =~= orig.subrange(0, n as int));
    }
}

proof fn lemma_filter_rows_len(pixels: Seq<u8>, stride: nat, comp: nat, types: Seq<u8>, r: nat)
    requires
        pixels.len() >= r * stride,
    ensures
        filter_rows(pixels, stride, comp, types, r).len() == r * (stride + 1),
    decreases r,
{
    if r > 0 {
        assert(pixels.len() >= (r - 1) * stride) by (nonlinear_arith)
            requires pixels.len() >= r * stride, r >= 1;
        assert(r * stride == (r - 1) * stride + stride) by (nonlinear_arith);
        assert(r * (stride + 1) == (r - 1) * (stride + 1) + stride + 1) by (nonlinear_arith);
        assert(0 <= (r - 1) * stride) by (nonlinear_arith) requires r >= 1;
        lemma_filter_rows_len(pixels, stride, comp, types, (r - 1) as nat);
        let k = r - 1;
        assert((k + 1) * stride == r * stride) by (nonlinear_arith) requires k == r - 1;
        assert(k * stride <= (k + 1) * stride) by (nonlinear_arith) requires k >= 0;
        assert(row_of(pixels, stride, k).len() == stride);
        let prev = if k == 0 { zero_row(stride) } else { row_of(pixels, stride, k - 1) };
        assert(filter_row(types[k], row_of(pixels, stride, k), prev, comp).len() == stride);
        let pre = filter_rows(pixels, stride, comp, types, (r - 1) as nat);
        assert(pre.len() == (r - 1) * (stride + 1));
        assert(filter_rows(pixels, stride, comp, types, r) == pre + seq![types[k]] + filter_row(
            types[k],
            row_of(pixels, stride, k),
            prev,
            comp,
        ));
    } else {
        assert(r * (stride + 1) == 0) by (nonlinear_arith) requires r == 0;
    }
}

proof fn lemma_filter_rows_prefix(pixels: Seq<u8>, stride: nat, comp: nat, types: Seq<u8>, r: nat, h: nat)
    requires
        r <= h,
        pixels.len() >= h * stride,
    ensures
        filter_rows(pixels, stride, comp, types, h).subrange(0, (r * (stride + 1)) as int)
            == filter_rows(pixels, stride, comp, types, r),
    decreases h - r,
{
    assert(pixels.len() >= r * stride) by (nonlinear_arith)
        requires pixels.len() >= h * stride, r <= h;
    lemma_filter_rows_len(pixels, stride, comp, types, r);
    lemma_filter_rows_len(pixels, stride, comp, types, h);
    if r == h {
        assert(filter_rows(pixels, stride, comp, types, h).subrange(0, (r * (stride + 1)) as int)
            =~= filter_rows(pixels, stride, comp, types, r));
    } else {
        lemma_filter_rows_prefix(pixels, stride, comp, types, r + 1, h);
        assert(pixels.len() >= (r + 1) * stride) by (nonlinear_arith)
            requires pixels.len() >= h * stride, r + 1 <= h;
        lemma_filter_rows_len(pixels, stride, comp, types, r + 1);
        assert(r * (stride + 1) <= (r + 1) * (stride + 1)) by (nonlinear_arith);
        assert(filter_rows(pixels, stride, comp, types, r + 1).subrange(0, (r * (stride + 1)) as int)
            =~= filter_rows(pixels, stride, comp, types, r));
        let fh = filter_rows(pixels, stride, comp, types, h);
        assert((r + 1) * (stride + 1) <= h * (stride + 1)) by (nonlinear_arith)
            requires r + 1 <= h;
        assert(fh.subrange(0, (r * (stride + 1)) as int) =~= fh.subrange(
            0,
            ((r + 1) * (stride + 1)) as int,
        ).subrange(0, (r * (stride + 1)) as int));
    }
}

proof fn lemma_unfilter_rows_of_filtered(
    data: Seq<u8>,
    pixels: Seq<u8>,
    stride: nat,
    comp: nat,
    types: Seq<u8>,
    r: nat,
)
    requires
        comp > 0,
        types.len() >= r,
        pixels.len() >= r * stride,
        data.len() >= r * (stride + 1),
        data.subrange(0, (r * (stride + 1)) as int) == filter_rows(pixels, stride, comp, types, r),
    ensures
        unfilter_rows(data, stride, comp, r) == pixels.subrange(0, (r * stride) as int),
    decreases r,
{
    if r > 0 {
        let k = (r - 1) as nat;
        assert(r * stride == k * stride + stride) by (nonlinear_arith) requires k == r - 1;
        assert(r * (stride + 1) == k * (stride + 1) + stride + 1) by (nonlinear_arith) requires k == r - 1;
        lemma_filter_rows_len(pixels, stride, comp, types, k);
        let fr = filter_rows(pixels, stride, comp, types, r);
        let fk = filter_rows(pixels, stride, comp, types, k);
        assert(data.subrange(0, (k * (stride + 1)) as int) =~= fk) by {
            assert(data.subrange(0, (k * (stride + 1)) as int) =~= fr.subrange(0, (k * (stride + 1)) as int));
        }
        lemma_unfilter_rows_of_filtered(data, pixels, stride, comp, types, k);
        let before = unfilter_rows(data, stride, comp, k);
        let prev = if k == 0 { zero_row(stride) } else { row_of(pixels, stride, k - 1) };
        if k > 0 {
            assert(k * stride == (k - 1) * stride + stride) by (nonlinear_arith) requires k >= 1;
            assert(before.subrange((before.len() - stride) as int, before.len() as int) =~= prev);
        }
        let orig = row_of(pixels, stride, k as int);
        let row = data.subrange((k * (stride + 1)) as int, (r * (stride + 1)) as int);
        assert(row =~= seq![types[k as int]] + filter_row(types[k as int], orig, prev, comp)) by {
            assert(row =~= fr.subrange((k * (stride + 1)) as int, (r * (stride + 1)) as int));
        }
        assert(row.subrange(1, stride + 1 as int) =~= filter_row(types[k as int], orig, prev, comp));
        lemma_unfilter_row(types[k as int], orig, prev, comp, stride);
        assert(orig.subrange(0, stride as int) =~= orig);
        assert(unfilter_rows(data, stride, comp, r) =~= pixels.subrange(0, (r * stride) as int));
    } else {
        assert(r * stride == 0) by (nonlinear_arith) requires r == 0;
        assert(pixels.subrange(0, (r * stride) as int) =~= Seq::<u8>::empty());
    }
}

/// Filtering the `height` rows of a raster with any filter type per row and
/// then reversing the filters gives the raster back.
pub proof fn lemma_predictor_round_trip(pixels: Seq<u8>, stride: nat, comp: nat, types: Seq<u8>, height: nat)
    requires
        comp > 0,
        pixels.len() == height * stride,
        types.len() == height,
    ensures
        filter_rows(pixels, stride, comp, types, height).len() == height * (stride + 1),
        unfilter_rows(filter_rows(pixels, stride, comp, types, height), stride, comp, height) == pixels,
{
    let f = filter_rows(pixels, stride, comp, types, height);
    lemma_filter_rows_len(pixels, stride, comp, types, height);
    assert(f.subrange(0, (height * (stride + 1)) as int) =~= f);
    lemma_unfilter_rows_of_filtered(f, pixels, stride, comp, types, height);
    assert(pixels.subrange(0, (height * stride) as int) =~= pixels);
}

pub fn paeth(a: u8, b: u8, c: u8) -> (r: u8)
    ensures
        r == paeth_spec(a, b, c),
{
    let p: i32 = a as i32 + b as i32 - c as i32;
    let pa: i32 = if p - (a as i32) < 0 { a as i32 - p } else { p - a as i32 };
    let pb: i32 = if p - (b as i32) < 0 { b as i32 - p } else { p - b as i32 };
    let pc: i32 = if p - (c as i32) < 0 { c as i32 - p } else { p - c as i32 };
    if pa <= pb && pa <= pc {
        a
    } else if pb <= pc {
        b
    } else {
        c
    }
}

fn predict(filter: u8, a: u8, b: u8, c: u8) -> (r: u8)
    ensures
        r == predicted(filter, a, b, c),
{
    if filter == 1 {
        a
    } else if filter == 2 {
        b
    } else if filter == 3 {
        ((a as u16 + b as u16) / 2) as u8
    } else if filter == 4 {
        paeth(a, b, c)
    } else {
        0
    }
}

/// Undoes PNG row filtering on `data`, rows of one filter-type byte followed
/// by `width * components` bytes; a trailing partial row is ignored.
pub fn remove_png_predictor(data: &Vec<u8>, width: u32, components: u32) -> (r: Vec<u8>)
    requires
        width as int * components as int + 1 <= usize::MAX,
    ensures
        r@ == unfilter_rows(
            data@,
            (width * components) as nat,
            components as nat,
            data@.len() / (width * components + 1) as nat,
        ),
{
    let stride: usize = (width as u64 * components as u64) as usize;
    let row_len: usize = stride + 1;
    let dlen: usize = data.len();
    let rows: usize = dlen / row_len;
    let comp: usize = components as usize;
    let ghost s = stride as nat;
    let mut result: Vec<u8> = Vec::new();
    let mut prev_row: Vec<u8> = vec![0u8; stride];
    assert(prev_row@ =~= zero_row(s));
    assert(comp == 0 ==> stride == 0) by (nonlinear_arith)
        requires stride == width * components, comp == components;
    let mut r: usize = 0;
    while r < rows
        invariant
            stride == width * components,
            s == stride,
            row_len == stride + 1,
            comp == components,
            dlen == data@.len(),
            rows == data@.len() / row_len as nat,
            comp == 0 ==> stride == 0,
            r <= rows,
            result@ == unfilter_rows(data@, s, comp as nat, r as nat),
            result@.len() == r * stride,
            prev_row@.len() == stride,
            r == 0 ==> prev_row@ == zero_row(s),
            r > 0 ==> result@.len() >= stride && prev_row@ == result@.subrange((result@.len() - stride) as int, result@.len() as int),
        decreases rows - r,
    {
        proof {
            let len = data@.len() as int;
            vstd::arithmetic::div_mod::lemma_fundamental_div_mod(len, row_len as int);
            vstd::arithmetic::div_mod::lemma_mod_pos_bound(len, row_len as int);
            assert(r * row_len + row_len <= len) by (nonlinear_arith)
                requires
                    r + 1 <= rows,
                    row_len >= 1,
                    len == row_len * rows + len % (row_len as int),
                    len % (row_len as int) >= 0;
            assert(r * row_len == r * (s + 1));
        }
        let start: usize = r * row_len;
        assert(start + row_len <= data@.len());
        let filter: u8 = data[start];
        let ghost raw = data@.subrange((start + 1) as int, (start + row_len) as int);
        let mut decoded: Vec<u8> = Vec::new();
        let mut i: usize = 0;
        while i < stride
            invariant
                0 <= i <= stride,
                comp == 0 ==> stride == 0,
                prev_row@.len() == stride,
                start + row_len <= data@.len(),
                dlen == data@.len(),
                row_len == stride + 1,
                raw == data@.subrange((start + 1) as int, (start + row_len) as int),
                decoded@ == unfilter_prefix(filter, raw, prev_row@, comp as nat, i as nat),
                decoded@.len() == i,
            decreases stride - i,
        {
            let a: u8 = if i >= comp { decoded[i - comp] } else { 0 };
            let b: u8 = prev_row[i];
            let c: u8 = if i >= comp { prev_row[i - comp] } else { 0 };
            let x: u8 = data[start + 1 + i];
            let v: u8 = predict(filter, a, b, c);
            let y: u8 = ((x as u16 + v as u16) % 256) as u8;
            decoded.push(y);
            i = i + 1;
        }
        let ghost before = result@;
        let mut j: usize = 0;
        while j < stride
            invariant
                0 <= j <= stride,
                decoded@.len() == stride,
                result@ == before + decoded@.subrange(0, j as int),
            decreases stride - j,
        {
            result.push(decoded[j]);
            j = j + 1;
        }
        proof {
            assert(start == r * (s + 1));
            assert(start + row_len == (r + 1) * (s + 1)) by (nonlinear_arith)
                requires start == r * (s + 1), row_len == s + 1;
            let row = data@.subrange(start as int, (start + row_len) as int);
            assert(row[0] == filter);
            assert(row.subrange(1, s + 1 as int) =~= raw);
            assert(decoded@.subrange(0, stride as int) =~= decoded@);
            assert(result@ == unfilter_rows(data@, s, comp as nat, (r + 1) as nat));
            assert((r + 1) * stride == r * stride + stride) by (nonlinear_arith);
            assert(result@.subrange((result@.len() - stride) as int, result@.len() as int) =~= decoded@);
        }
        prev_row = decoded;
        r = r + 1;
    }
    result
}

} // verus!
