use vstd::prelude::*;

use crate::buffer::be_u16;
use crate::error::Error;
use crate::eof::{
    decode, header_of, list_at, section_at, section_list_at, sizes_fit, code_offset, SectionKind,
    be_bytes, metadata_at, FunctionMetadata,
    declared_size, encode, lemma_sum_nonneg, lemma_sum_prefix_le, metadata_error, sum,
    ContainerModel, empty_code_section,
};

verus! {

/// The sizes of the code sections, as the header records them.
pub open spec fn code_sizes(m: ContainerModel) -> Seq<u16> {
    m.code.map_values(|c: Seq<u8>| c.len() as u16)
}

/// A container that the binary form can carry and the decoder accepts: 1 to 1024 sections,
/// one signature per code section, no empty code section, signatures within limits, a first
/// section without inputs or outputs, and a declared size that fits in `u16`.
pub open spec fn well_formed(m: ContainerModel) -> bool {
    &&& 1 <= m.types.len() <= 1024
    &&& m.code.len() == m.types.len()
    &&& forall|i: int| 0 <= i < m.code.len() ==> 0 < #[trigger] m.code[i].len() <= u16::MAX
    &&& m.data.len() <= u16::MAX
    &&& metadata_error(m.types, 0) is None
    &&& m.types[0].input == 0 && m.types[0].output == 0
    &&& declared_size((4 * m.types.len()) as u16, code_sizes(m), m.data.len() as u16) <= u16::MAX
}

proof fn lemma_be_u16_of_bytes(s: Seq<u8>, p: int, x: u16)
    requires
        0 <= p,
        p + 1 < s.len(),
        s[p] == (x / 256) as u8,
        s[p + 1] == (x % 256) as u8,
    ensures
        be_u16(s, p) == x,
{
}

proof fn lemma_bytes_of_be_u16(s: Seq<u8>, p: int)
    requires
        0 <= p,
        p + 1 < s.len(),
    ensures
        s[p] == (be_u16(s, p) / 256) as u8,
        s[p + 1] == (be_u16(s, p) % 256) as u8,
{
}

/// The pieces of a flattened sequence of pieces of equal length `k`.
proof fn lemma_flatten_uniform(x: Seq<Seq<u8>>, k: int)
    requires
        k > 0,
        forall|i: int| 0 <= i < x.len() ==> #[trigger] x[i].len() == k,
    ensures
        x.flatten().len() == k * x.len(),
        forall|i: int, j: int|
            0 <= i < x.len() && 0 <= j < k ==> x.flatten()[k * i + j] == #[trigger] x[i][j],
    decreases x.len(),
{
    if x.len() > 0 {
        let y = x.drop_last();
        lemma_flatten_uniform(y, k);
        y.lemma_flatten_push(x.last());
        assert(y.push(x.last()) == x);
        assert(k * x.len() == k * y.len() + k) by (nonlinear_arith)
            requires
                x.len() == y.len() + 1,
        ;
        assert forall|i: int, j: int| 0 <= i < x.len() && 0 <= j < k implies x.flatten()[k * i
            + j] == #[trigger] x[i][j] by {
            if i < y.len() {
                assert(k * i + j < k * y.len()) by (nonlinear_arith)
                    requires
                        0 <= i < y.len(),
                        0 <= j < k,
                ;
                assert(0 <= k * i) by (nonlinear_arith)
                    requires
                        0 <= i,
                        0 < k,
                ;
                assert(y[i] == x[i]);
                assert(y.flatten()[k * i + j] == y[i][j]);
            } else {
                assert(k * i == k * y.len());
            }
        }
    }
}

/// The pieces of a flattened sequence of pieces of lengths `lens`.
proof fn lemma_flatten_parts(x: Seq<Seq<u8>>, lens: Seq<u16>)
    requires
        x.len() == lens.len(),
        forall|i: int| 0 <= i < x.len() ==> #[trigger] x[i].len() == lens[i],
    ensures
        x.flatten().len() == sum(lens),
        forall|i: int|
            0 <= i < x.len() ==> x.flatten().subrange(
                sum(lens.take(i)),
                sum(lens.take(i)) + lens[i],
            ) == #[trigger] x[i],
    decreases x.len(),
{
    if x.len() > 0 {
        let y = x.drop_last();
        let l2 = lens.drop_last();
        lemma_flatten_parts(y, l2);
        y.lemma_flatten_push(x.last());
        assert(y.push(x.last()) == x);
        assert forall|i: int| 0 <= i < x.len() implies x.flatten().subrange(
            sum(lens.take(i)),
            sum(lens.take(i)) + lens[i],
        ) == #[trigger] x[i] by {
            if i < y.len() {
                assert(lens.take(i) == l2.take(i));
                lemma_sum_prefix_le(l2, i + 1);
                assert(l2.take(i + 1).drop_last() == l2.take(i));
                lemma_sum_prefix_le(l2, i);
                assert(y[i] == x[i]);
                assert(x.flatten().subrange(sum(lens.take(i)), sum(lens.take(i)) + lens[i])
                    =~= y.flatten().subrange(sum(l2.take(i)), sum(l2.take(i)) + l2[i]));
            } else {
                assert(lens.take(i) == l2);
                assert(x.flatten().subrange(sum(lens.take(i)), sum(lens.take(i)) + lens[i])
                    =~= x.last());
            }
        }
    }
}

/// Consecutive windows of `b` flatten to the window that they cover.
proof fn lemma_flatten_windows(b: Seq<u8>, o: int, lens: Seq<u16>)
    requires
        0 <= o,
        o + sum(lens) <= b.len(),
    ensures
        Seq::new(
            lens.len(),
            |i: int| b.subrange(o + sum(lens.take(i)), o + sum(lens.take(i)) + lens[i]),
        ).flatten() == b.subrange(o, o + sum(lens)),
    decreases lens.len(),
{
    let w = Seq::new(
        lens.len(),
        |i: int| b.subrange(o + sum(lens.take(i)), o + sum(lens.take(i)) + lens[i]),
    );
    if lens.len() == 0 {
        assert(w.flatten() =~= b.subrange(o, o + sum(lens)));
    } else {
        let l2 = lens.drop_last();
        lemma_sum_nonneg(l2);
        lemma_flatten_windows(b, o, l2);
        let w2 = Seq::new(
            l2.len(),
            |i: int| b.subrange(o + sum(l2.take(i)), o + sum(l2.take(i)) + l2[i]),
        );
        assert forall|i: int| 0 <= i < l2.len() implies w.drop_last()[i] == w2[i] by {
            assert(lens.take(i) == l2.take(i));
        }
        assert(w.drop_last() =~= w2);
        assert(lens.take(l2.len() as int) == l2);
        w2.lemma_flatten_push(w.last());
        assert(w2.push(w.last()) =~= w);
        assert(w.flatten() =~= b.subrange(o, o + sum(lens)));
    }
}

proof fn lemma_no_empty_code_section(sizes: Seq<u16>, k: int)
    requires
        0 <= k,
        forall|i: int| 0 <= i < sizes.len() ==> #[trigger] sizes[i] != 0,
    ensures
        empty_code_section(sizes, k) is None,
    decreases sizes.len() - k,
{
    if k < sizes.len() {
        lemma_no_empty_code_section(sizes, k + 1);
    }
}

proof fn lemma_empty_code_section_some(sizes: Seq<u16>, k: int, i: int)
    requires
        0 <= k <= i < sizes.len(),
        sizes[i] == 0,
    ensures
        empty_code_section(sizes, k) is Some,
    decreases sizes.len() - k,
{
    if k < i && sizes[k] != 0 {
        lemma_empty_code_section_some(sizes, k + 1, i);
    }
}

/// The fixed header before the code sizes.
spec fn enc_head(m: ContainerModel) -> Seq<u8> {
    seq![0xefu8, 0x00u8, 1u8, 1u8] + be_bytes((m.types.len() * 4) as u16) + seq![2u8] + be_bytes(
        m.code.len() as u16,
    )
}

spec fn enc_size_parts(m: ContainerModel) -> Seq<Seq<u8>> {
    m.code.map_values(|c: Seq<u8>| be_bytes(c.len() as u16))
}

spec fn enc_mid(m: ContainerModel) -> Seq<u8> {
    seq![3u8] + be_bytes(m.data.len() as u16) + seq![0u8]
}

spec fn enc_type_parts(m: ContainerModel) -> Seq<Seq<u8>> {
    m.types.map_values(|t: FunctionMetadata| t.encoding())
}

proof fn lemma_encode_split(m: ContainerModel)
    ensures
        encode(m) == enc_head(m) + enc_size_parts(m).flatten() + enc_mid(m) + enc_type_parts(
            m,
        ).flatten() + m.code.flatten() + m.data,
{
    reveal(encode);
    assert(encode(m) =~= enc_head(m) + enc_size_parts(m).flatten() + enc_mid(m) + enc_type_parts(
        m,
    ).flatten() + m.code.flatten() + m.data);
}

/// The lengths of the parts of the binary form.
proof fn lemma_encode_lengths(m: ContainerModel)
    requires
        m.code.len() == m.types.len(),
        forall|i: int| 0 <= i < m.code.len() ==> #[trigger] m.code[i].len() <= u16::MAX,
    ensures
        enc_head(m).len() == 9,
        enc_mid(m).len() == 4,
        enc_size_parts(m).flatten().len() == 2 * m.types.len(),
        enc_type_parts(m).flatten().len() == 4 * m.types.len(),
        m.code.flatten().len() == sum(code_sizes(m)),
        forall|i: int, j: int|
            0 <= i < m.types.len() && 0 <= j < 2 ==> enc_size_parts(m).flatten()[2 * i + j]
                == #[trigger] enc_size_parts(m)[i][j],
        forall|i: int, j: int|
            0 <= i < m.types.len() && 0 <= j < 4 ==> enc_type_parts(m).flatten()[4 * i + j]
                == #[trigger] enc_type_parts(m)[i][j],
        forall|i: int|
            0 <= i < m.code.len() ==> m.code.flatten().subrange(
                sum(code_sizes(m).take(i)),
                sum(code_sizes(m).take(i)) + code_sizes(m)[i],
            ) == #[trigger] m.code[i],
{
    let sx = enc_size_parts(m);
    let tx = enc_type_parts(m);
    let lens = code_sizes(m);
    assert forall|i: int| 0 <= i < sx.len() implies #[trigger] sx[i].len() == 2 by {}
    lemma_flatten_uniform(sx, 2);
    assert forall|i: int| 0 <= i < tx.len() implies #[trigger] tx[i].len() == 4 by {}
    lemma_flatten_uniform(tx, 4);
    assert forall|i: int| 0 <= i < m.code.len() implies #[trigger] m.code[i].len() == lens[i] by {}
    lemma_flatten_parts(m.code, lens);
}

/// The concatenation behind the binary form, with the length of each part.
proof fn lemma_encode_parts(m: ContainerModel)
    requires
        m.types.len() <= 1024,
        m.code.len() == m.types.len(),
        forall|i: int| 0 <= i < m.code.len() ==> #[trigger] m.code[i].len() <= u16::MAX,
    ensures
        ({
            let p3 = enc_head(m) + enc_size_parts(m).flatten() + enc_mid(m) + enc_type_parts(
                m,
            ).flatten();
            &&& encode(m) == p3 + m.code.flatten() + m.data
            &&& p3.len() == 13 + 6 * m.types.len()
            &&& m.code.flatten().len() == sum(code_sizes(m))
        }),
{
    lemma_encode_split(m);
    lemma_encode_lengths(m);
    let p3 = enc_head(m) + enc_size_parts(m).flatten() + enc_mid(m) + enc_type_parts(m).flatten();
    assert(encode(m) =~= p3 + m.code.flatten() + m.data);
}

spec fn enc_prefix(m: ContainerModel) -> Seq<u8> {
    enc_head(m) + enc_size_parts(m).flatten() + enc_mid(m) + enc_type_parts(m).flatten()
}

/// The header of the binary form.
proof fn lemma_layout_header(m: ContainerModel)
    requires
        m.types.len() <= 1024,
        m.code.len() == m.types.len(),
        forall|i: int| 0 <= i < m.code.len() ==> #[trigger] m.code[i].len() <= u16::MAX,
        m.data.len() <= u16::MAX,
    ensures
        ({
            let e = enc_prefix(m);
            let n = m.types.len() as int;
            &&& e.len() == 13 + 6 * n
            &&& e[0] == 0xefu8 && e[1] == 0u8 && e[2] == 1u8 && e[3] == 1u8
            &&& be_u16(e, 4) == (4 * n) as u16
            &&& e[6] == 2u8
            &&& be_u16(e, 7) == n as u16
            &&& e[9 + 2 * n] == 3u8
            &&& be_u16(e, 10 + 2 * n) == m.data.len() as u16
            &&& e[12 + 2 * n] == 0u8
        }),
{
    let n = m.types.len() as int;
    let h = enc_head(m);
    let sf = enc_size_parts(m).flatten();
    let mid = enc_mid(m);
    let tf = enc_type_parts(m).flatten();
    lemma_encode_lengths(m);
    let p1 = h + sf;
    let p2 = p1 + mid;
    let e = p2 + tf;
    assert(e == enc_prefix(m));
    assert forall|k: int| 0 <= k < p1.len() implies e[k] == #[trigger] p1[k] by {}
    assert forall|k: int| 0 <= k < h.len() implies p1[k] == #[trigger] h[k] by {}
    lemma_be_u16_of_bytes(e, 4, (4 * n) as u16);
    lemma_be_u16_of_bytes(e, 7, n as u16);
    assert forall|k: int| 0 <= k < 4 implies e[9 + 2 * n + k] == #[trigger] mid[k] by {
        assert(e[9 + 2 * n + k] == p2[9 + 2 * n + k]);
    }
    lemma_be_u16_of_bytes(e, 10 + 2 * n, m.data.len() as u16);
}

/// The code sizes in the binary form.
#[verifier::spinoff_prover]
#[verifier::rlimit(50)]
proof fn lemma_layout_sizes(m: ContainerModel)
    requires
        m.types.len() <= 1024,
        m.code.len() == m.types.len(),
        forall|i: int| 0 <= i < m.code.len() ==> #[trigger] m.code[i].len() <= u16::MAX,
    ensures
        forall|i: int|
            0 <= i < m.types.len() ==> be_u16(enc_prefix(m), 9 + 2 * i) == #[trigger] code_sizes(
                m,
            )[i],
{
    let n = m.types.len() as int;
    let lens = code_sizes(m);
    let h = enc_head(m);
    let sf = enc_size_parts(m).flatten();
    lemma_encode_lengths(m);
    let p1 = h + sf;
    let e = enc_prefix(m);
    assert(e == p1 + enc_mid(m) + enc_type_parts(m).flatten());
    assert forall|i: int| 0 <= i < n implies be_u16(e, 9 + 2 * i) == #[trigger] lens[i] by {
        assert(enc_size_parts(m)[i][0] == sf[2 * i + 0]);
        assert(enc_size_parts(m)[i][1] == sf[2 * i + 1]);
        assert(e[9 + 2 * i] == p1[9 + 2 * i]);
        assert(e[9 + 2 * i + 1] == p1[9 + 2 * i + 1]);
        lemma_be_u16_of_bytes(e, 9 + 2 * i, lens[i]);
    }
}

/// The signatures in the binary form.
#[verifier::spinoff_prover]
#[verifier::rlimit(50)]
proof fn lemma_layout_types(m: ContainerModel)
    requires
        m.types.len() <= 1024,
        m.code.len() == m.types.len(),
        forall|i: int| 0 <= i < m.code.len() ==> #[trigger] m.code[i].len() <= u16::MAX,
    ensures
        forall|i: int|
            0 <= i < m.types.len() ==> metadata_at(enc_prefix(m), 13 + 2 * m.types.len() as int, i)
                == #[trigger] m.types[i],
{
    let n = m.types.len() as int;
    let tf = enc_type_parts(m).flatten();
    lemma_encode_lengths(m);
    let p2 = enc_head(m) + enc_size_parts(m).flatten() + enc_mid(m);
    let e = enc_prefix(m);
    assert(e == p2 + tf);
    assert(p2.len() == 13 + 2 * n);
    assert forall|i: int| 0 <= i < n implies metadata_at(e, 13 + 2 * n, i)
        == #[trigger] m.types[i] by {
        assert(enc_type_parts(m)[i][0] == tf[4 * i + 0]);
        assert(enc_type_parts(m)[i][1] == tf[4 * i + 1]);
        assert(enc_type_parts(m)[i][2] == tf[4 * i + 2]);
        assert(enc_type_parts(m)[i][3] == tf[4 * i + 3]);
        lemma_be_u16_of_bytes(e, 13 + 2 * n + 4 * i + 2, m.types[i].max_stack_height);
    }
}

/// The code sections and data in the binary form.
proof fn lemma_layout_code(m: ContainerModel)
    requires
        m.types.len() <= 1024,
        m.code.len() == m.types.len(),
        forall|i: int| 0 <= i < m.code.len() ==> #[trigger] m.code[i].len() <= u16::MAX,
    ensures
        ({
            let e = encode(m);
            let n = m.types.len() as int;
            let lens = code_sizes(m);
            &&& e.len() == 13 + 6 * n + sum(lens) + m.data.len()
            &&& forall|k: int| 0 <= k < 13 + 6 * n ==> #[trigger] e[k] == enc_prefix(m)[k]
            &&& forall|i: int|
                0 <= i < n ==> e.subrange(
                    13 + 6 * n + sum(lens.take(i)),
                    13 + 6 * n + sum(lens.take(i)) + lens[i],
                ) == #[trigger] m.code[i]
            &&& e.subrange(13 + 6 * n + sum(lens), 13 + 6 * n + sum(lens) + m.data.len())
                == m.data
        }),
{
    let n = m.types.len() as int;
    let lens = code_sizes(m);
    lemma_encode_parts(m);
    lemma_encode_lengths(m);
    lemma_sum_nonneg(lens);
    let e = encode(m);
    let cf = m.code.flatten();
    assert(e == enc_prefix(m) + cf + m.data);
    assert forall|i: int| 0 <= i < n implies e.subrange(
        13 + 6 * n + sum(lens.take(i)),
        13 + 6 * n + sum(lens.take(i)) + lens[i],
    ) == #[trigger] m.code[i] by {
        lemma_sum_prefix_le(lens, i + 1);
        assert(lens.take(i + 1).drop_last() == lens.take(i));
        lemma_sum_prefix_le(lens, i);
        assert(e.subrange(13 + 6 * n + sum(lens.take(i)), 13 + 6 * n + sum(lens.take(i)) + lens[i])
            =~= cf.subrange(sum(lens.take(i)), sum(lens.take(i)) + lens[i]));
    }
    assert(e.subrange(13 + 6 * n + sum(lens), 13 + 6 * n + sum(lens) + m.data.len()) =~= m.data);
}

/// The fields of the binary form, read off the whole encoding.
proof fn lemma_encode_fields(m: ContainerModel)
    requires
        m.types.len() <= 1024,
        m.code.len() == m.types.len(),
        forall|i: int| 0 <= i < m.code.len() ==> #[trigger] m.code[i].len() <= u16::MAX,
        m.data.len() <= u16::MAX,
    ensures
        ({
            let e = encode(m);
            let n = m.types.len() as int;
            let lens = code_sizes(m);
            &&& e.len() == 13 + 6 * n + sum(lens) + m.data.len()
            &&& e[0] == 0xefu8 && e[1] == 0u8 && e[2] == 1u8 && e[3] == 1u8
            &&& be_u16(e, 4) == (4 * n) as u16
            &&& e[6] == 2u8
            &&& be_u16(e, 7) == n as u16
            &&& forall|i: int| 0 <= i < n ==> be_u16(e, 9 + 2 * i) == #[trigger] lens[i]
            &&& e[9 + 2 * n] == 3u8
            &&& be_u16(e, 10 + 2 * n) == m.data.len() as u16
            &&& e[12 + 2 * n] == 0u8
            &&& forall|i: int|
                0 <= i < n ==> metadata_at(e, 13 + 2 * n, i) == #[trigger] m.types[i]
        }),
{
    let e = encode(m);
    let n = m.types.len() as int;
    let lens = code_sizes(m);
    lemma_layout_header(m);
    lemma_layout_sizes(m);
    lemma_layout_types(m);
    lemma_layout_code(m);
    lemma_sum_nonneg(lens);
    let p = enc_prefix(m);
    assert(e[3] == p[3] && e[6] == p[6] && e[9 + 2 * n] == p[9 + 2 * n] && e[12 + 2 * n] == p[12
        + 2 * n]);
    assert(e[0] == p[0] && e[1] == p[1] && e[2] == p[2]);
    assert(be_u16(e, 4) == be_u16(p, 4)) by {
        assert(e[4] == p[4] && e[5] == p[5]);
    }
    assert(be_u16(e, 7) == be_u16(p, 7)) by {
        assert(e[7] == p[7] && e[8] == p[8]);
    }
    assert(be_u16(e, 10 + 2 * n) == be_u16(p, 10 + 2 * n)) by {
        assert(e[10 + 2 * n] == p[10 + 2 * n] && e[11 + 2 * n] == p[11 + 2 * n]);
    }
    assert forall|i: int| 0 <= i < n implies be_u16(e, 9 + 2 * i) == #[trigger] lens[i] by {
        assert(e[9 + 2 * i] == p[9 + 2 * i] && e[10 + 2 * i] == p[10 + 2 * i]);
        assert(be_u16(p, 9 + 2 * i) == lens[i]);
    }
    assert forall|i: int| 0 <= i < n implies metadata_at(e, 13 + 2 * n, i)
        == #[trigger] m.types[i] by {
        let q = 13 + 2 * n + 4 * i;
        assert(e[q] == p[q] && e[q + 1] == p[q + 1] && e[q + 2] == p[q + 2] && e[q + 3] == p[q
            + 3]);
        assert(metadata_at(p, 13 + 2 * n, i) == m.types[i]);
    }
}

/// The header of the binary form of a well-formed container declares its sizes.
proof fn lemma_encode_header(m: ContainerModel)
    requires
        well_formed(m),
    ensures
        header_of(encode(m)) == Ok::<(u16, Seq<u16>, u16), Error>(
            ((4 * m.types.len()) as u16, code_sizes(m), m.data.len() as u16),
        ),
{
    let e = encode(m);
    let n = m.types.len() as int;
    let lens = code_sizes(m);
    let dl = m.data.len() as u16;
    reveal(header_of);
    lemma_encode_fields(m);
    lemma_sum_nonneg(lens);
    assert(section_at(e, 3) == Ok::<(SectionKind, u16), Error>(
        (SectionKind::Type, (4 * n) as u16),
    ));
    assert(list_at(e, 7) == Ok::<Seq<u16>, Error>(lens)) by {
        assert(Seq::new(n as nat, |i: int| be_u16(e, 7 + 2 + 2 * i)) =~= lens);
    }
    assert(section_list_at(e, 6) == Ok::<(SectionKind, Seq<u16>), Error>(
        (SectionKind::Code, lens),
    ));
    assert(section_at(e, 9 + 2 * n) == Ok::<(SectionKind, u16), Error>((SectionKind::Data, dl)));
}

/// Decoding the binary form of a well-formed container gives the container back, and its
/// declared sizes fit in `u16`.
#[verifier::spinoff_prover]
#[verifier::rlimit(50)]
pub proof fn lemma_encode_decode(m: ContainerModel)
    requires
        well_formed(m),
    ensures
        sizes_fit(encode(m)),
        decode(encode(m)) == Ok::<ContainerModel, Error>(m),
{
    let e = encode(m);
    let n = m.types.len() as int;
    let lens = code_sizes(m);
    let ts = (4 * n) as u16;
    reveal(decode);
    lemma_encode_header(m);
    lemma_encode_fields(m);
    lemma_layout_code(m);
    lemma_sum_nonneg(lens);
    let types = Seq::new(n as nat, |i: int| metadata_at(e, 13 + 2 * n, i));
    assert(types =~= m.types);
    assert forall|i: int| 0 <= i < lens.len() implies #[trigger] lens[i] != 0 by {
        assert(0 < m.code[i].len());
    }
    lemma_no_empty_code_section(lens, 0);
    let code = Seq::new(
        n as nat,
        |i: int| e.subrange(code_offset(ts, lens, i), code_offset(ts, lens, i) + lens[i]),
    );
    assert(code =~= m.code);
    assert(lens.take(n) == lens);
}

/// What a successful decoding tells of the header of `b`.
proof fn lemma_decoded_header(b: Seq<u8>)
    requires
        decode(b) is Ok,
    ensures
        header_of(b) is Ok,
        ({
            let (ts, sizes, ds) = header_of(b)->Ok_0;
            let n = sizes.len() as int;
            &&& 1 <= n <= 1024
            &&& ts == 4 * n
            &&& b.len() == declared_size(ts, sizes, ds)
            &&& b[0] == 0xefu8 && b[1] == 0u8 && b[2] == 1u8 && b[3] == 1u8
            &&& be_u16(b, 4) == ts
            &&& b[6] == 2u8
            &&& be_u16(b, 7) == n
            &&& forall|i: int| 0 <= i < n ==> be_u16(b, 9 + 2 * i) == #[trigger] sizes[i]
            &&& b[9 + 2 * n] == 3u8
            &&& be_u16(b, 10 + 2 * n) == ds
            &&& b[12 + 2 * n] == 0u8
        }),
{
    reveal(decode);
    reveal(header_of);
    let (ts, sizes, ds) = header_of(b)->Ok_0;
    let n = sizes.len() as int;
    let l = list_at(b, 7)->Ok_0;
    assert(l == sizes);
    assert forall|i: int| 0 <= i < n implies be_u16(b, 9 + 2 * i) == #[trigger] sizes[i] by {
        assert(l[i] == be_u16(b, 7 + 2 + 2 * i));
    }
}

/// The container that a successful decoding of `b` gives, in terms of `b`.
proof fn lemma_decoded_model(b: Seq<u8>)
    requires
        decode(b) is Ok,
    ensures
        header_of(b) is Ok,
        ({
            let (ts, sizes, ds) = header_of(b)->Ok_0;
            let n = sizes.len() as int;
            let m = decode(b)->Ok_0;
            &&& m.types == Seq::new(sizes.len(), |i: int| metadata_at(b, 13 + 2 * n, i))
            &&& metadata_error(m.types, 0) is None
            &&& m.types[0].input == 0 && m.types[0].output == 0
            &&& empty_code_section(sizes, 0) is None
            &&& m.code == Seq::new(
                sizes.len(),
                |i: int|
                    b.subrange(code_offset(ts, sizes, i), code_offset(ts, sizes, i) + sizes[i]),
            )
            &&& m.data == b.subrange(
                code_offset(ts, sizes, n),
                code_offset(ts, sizes, n) + ds,
            )
        }),
{
    reveal(decode);
}

/// A successful decoding has found sizes that add up within `u16`.
proof fn lemma_decoded_sizes_fit(b: Seq<u8>)
    requires
        decode(b) is Ok,
    ensures
        sizes_fit(b),
{
    reveal(decode);
}

/// What a successful decoding gives: as many signatures as code sections, at least one and
/// at most 1024; a first signature that takes and returns nothing; every signature within
/// its limits; no empty code section; and an input exactly as long as its header declares,
/// within `u16`.
pub proof fn lemma_decoded_structure(b: Seq<u8>)
    requires
        decode(b) is Ok,
    ensures
        well_formed(decode(b)->Ok_0),
        decode(b)->Ok_0.types.len() == decode(b)->Ok_0.code.len(),
        1 <= decode(b)->Ok_0.code.len() <= 1024,
        decode(b)->Ok_0.types[0].input == 0 && decode(b)->Ok_0.types[0].output == 0,
        metadata_error(decode(b)->Ok_0.types, 0) is None,
        forall|i: int|
            0 <= i < decode(b)->Ok_0.code.len() ==> #[trigger] decode(b)->Ok_0.code[i].len() > 0,
        header_of(b) is Ok,
        b.len() == declared_size(
            header_of(b)->Ok_0.0,
            header_of(b)->Ok_0.1,
            header_of(b)->Ok_0.2,
        ),
        b.len() <= u16::MAX,
{
    lemma_decoded_sizes_fit(b);
    lemma_decoded_header(b);
    lemma_decoded_well_formed(b);
}

/// A successful decoding gives a well-formed container.
proof fn lemma_decoded_well_formed(b: Seq<u8>)
    requires
        decode(b) is Ok,
        sizes_fit(b),
    ensures
        well_formed(decode(b)->Ok_0),
        code_sizes(decode(b)->Ok_0) == header_of(b)->Ok_0.1,
        decode(b)->Ok_0.data.len() == header_of(b)->Ok_0.2,
{
    lemma_decoded_header(b);
    lemma_decoded_model(b);
    let m = decode(b)->Ok_0;
    let (ts, sizes, ds) = header_of(b)->Ok_0;
    let n = sizes.len() as int;
    lemma_sum_nonneg(sizes);
    assert(sizes.take(n) == sizes);
    assert forall|i: int| 0 <= i < n implies #[trigger] sizes[i] != 0 by {
        if sizes[i] == 0 {
            lemma_empty_code_section_some(sizes, 0, i);
        }
    }
    assert forall|i: int| 0 <= i < n implies #[trigger] m.code[i].len() == sizes[i] by {
        lemma_sum_prefix_le(sizes, i + 1);
        assert(sizes.take(i + 1).drop_last() == sizes.take(i));
        lemma_sum_prefix_le(sizes, i);
    }
    assert(code_sizes(m) =~= sizes);
    assert forall|i: int| 0 <= i < m.code.len() implies 0 < #[trigger] m.code[i].len() <= u16::MAX by {
        assert(m.code[i].len() == sizes[i]);
    }
    assert(1 <= m.types.len() <= 1024);
    assert(m.code.len() == m.types.len());
    assert(m.data.len() <= u16::MAX);
    assert(metadata_error(m.types, 0) is None);
    assert(m.types[0].input == 0 && m.types[0].output == 0);
    assert(declared_size((4 * m.types.len()) as u16, code_sizes(m), m.data.len() as u16) <= u16::MAX);
}

/// The fixed header bytes of `b` are those of the encoding of what decoding it gives.
#[verifier::spinoff_prover]
proof fn lemma_decode_encode_header(b: Seq<u8>)
    requires
        decode(b) is Ok,
        sizes_fit(b),
    ensures
        ({
            let e = encode(decode(b)->Ok_0);
            let n = header_of(b)->Ok_0.1.len() as int;
            &&& e.len() == b.len()
            &&& forall|k: int| 0 <= k < 9 ==> #[trigger] e[k] == b[k]
            &&& forall|k: int| 9 + 2 * n <= k < 13 + 2 * n ==> #[trigger] e[k] == b[k]
        }),
{
    lemma_decoded_header(b);
    lemma_decoded_well_formed(b);
    let m = decode(b)->Ok_0;
    let (ts, sizes, ds) = header_of(b)->Ok_0;
    let n = sizes.len() as int;
    let e = encode(m);
    lemma_encode_fields(m);
    lemma_sum_nonneg(sizes);
    assert(b.len() >= 13 + 6 * n);
    assert(e.len() == b.len());
    lemma_bytes_of_be_u16(e, 4);
    lemma_bytes_of_be_u16(b, 4);
    lemma_bytes_of_be_u16(e, 7);
    lemma_bytes_of_be_u16(b, 7);
    lemma_bytes_of_be_u16(e, 10 + 2 * n);
    lemma_bytes_of_be_u16(b, 10 + 2 * n);
}

/// The code size bytes of `b` are those of the encoding of what decoding it gives.
#[verifier::spinoff_prover]
proof fn lemma_decode_encode_sizes(b: Seq<u8>)
    requires
        decode(b) is Ok,
        sizes_fit(b),
    ensures
        forall|k: int|
            9 <= k < 9 + 2 * header_of(b)->Ok_0.1.len() ==> #[trigger] encode(
                decode(b)->Ok_0,
            )[k] == b[k],
{
    lemma_decoded_header(b);
    lemma_decoded_well_formed(b);
    let m = decode(b)->Ok_0;
    let (ts, sizes, ds) = header_of(b)->Ok_0;
    let n = sizes.len() as int;
    let e = encode(m);
    lemma_encode_fields(m);
    lemma_sum_nonneg(sizes);
    assert(b.len() >= 13 + 6 * n);
    assert(e.len() == b.len());
    assert forall|i: int| 0 <= i < n implies e[9 + 2 * i] == b[9 + 2 * i] && #[trigger] e[10 + 2
        * i] == b[10 + 2 * i] by {
        assert(be_u16(e, 9 + 2 * i) == sizes[i]);
        assert(be_u16(b, 9 + 2 * i) == sizes[i]);
        lemma_bytes_of_be_u16(e, 9 + 2 * i);
        lemma_bytes_of_be_u16(b, 9 + 2 * i);
    }
    assert forall|k: int| 9 <= k < 9 + 2 * n implies #[trigger] e[k] == b[k] by {
        let i = (k - 9) / 2;
        assert(e[10 + 2 * i] == b[10 + 2 * i]);
    }
}

/// The signature bytes of `b` are those of the encoding of what decoding it gives.
#[verifier::spinoff_prover]
proof fn lemma_decode_encode_types(b: Seq<u8>)
    requires
        decode(b) is Ok,
        sizes_fit(b),
    ensures
        forall|k: int|
            13 + 2 * header_of(b)->Ok_0.1.len() <= k < 13 + 6 * header_of(b)->Ok_0.1.len()
                ==> #[trigger] encode(decode(b)->Ok_0)[k] == b[k],
{
    lemma_decoded_header(b);
    lemma_decoded_model(b);
    lemma_decoded_well_formed(b);
    let m = decode(b)->Ok_0;
    let (ts, sizes, ds) = header_of(b)->Ok_0;
    let n = sizes.len() as int;
    let e = encode(m);
    lemma_encode_fields(m);
    lemma_sum_nonneg(sizes);
    assert(b.len() >= 13 + 6 * n);
    assert(e.len() == b.len());
    assert forall|i: int| 0 <= i < n implies e[13 + 2 * n + 4 * i] == b[13 + 2 * n + 4 * i]
        && e[14 + 2 * n + 4 * i] == b[14 + 2 * n + 4 * i] && e[15 + 2 * n + 4 * i] == b[15 + 2 * n
        + 4 * i] && #[trigger] e[16 + 2 * n + 4 * i] == b[16 + 2 * n + 4 * i] by {
        assert(metadata_at(e, 13 + 2 * n, i) == m.types[i]);
        assert(m.types[i] == metadata_at(b, 13 + 2 * n, i));
        lemma_bytes_of_be_u16(e, 13 + 2 * n + 4 * i + 2);
        lemma_bytes_of_be_u16(b, 13 + 2 * n + 4 * i + 2);
    }
    assert forall|k: int| 13 + 2 * n <= k < 13 + 6 * n implies #[trigger] e[k] == b[k] by {
        let i = (k - 13 - 2 * n) / 4;
        assert(e[16 + 2 * n + 4 * i] == b[16 + 2 * n + 4 * i]);
    }
}

/// Encoding what decoding `b` gives yields `b` again.
#[verifier::spinoff_prover]
#[verifier::rlimit(60)]
pub proof fn lemma_decode_encode(b: Seq<u8>)
    requires
        decode(b) is Ok,
    ensures
        well_formed(decode(b)->Ok_0),
        encode(decode(b)->Ok_0) == b,
{
    lemma_decoded_sizes_fit(b);
    lemma_decoded_header(b);
    lemma_decoded_model(b);
    lemma_decoded_well_formed(b);
    let m = decode(b)->Ok_0;
    let (ts, sizes, ds) = header_of(b)->Ok_0;
    let n = sizes.len() as int;
    let e = encode(m);
    lemma_encode_fields(m);
    lemma_sum_nonneg(sizes);
    assert(b.len() >= 13 + 6 * n);
    assert(e.len() == b.len());
    lemma_encode_parts(m);
    lemma_sum_nonneg(sizes);
    let o = 13 + 6 * n;
    assert(e.len() == b.len());
    lemma_decode_encode_header(b);
    lemma_decode_encode_sizes(b);
    lemma_decode_encode_types(b);
    assert forall|k: int| 0 <= k < o implies #[trigger] e[k] == b[k] by {
        if k < 9 {
        } else if k < 9 + 2 * n {
        } else if k < 13 + 2 * n {
        } else {
        }
    }
    // code sections
    lemma_flatten_windows(b, o, sizes);
    assert(Seq::new(
        sizes.len(),
        |i: int| b.subrange(o + sum(sizes.take(i)), o + sum(sizes.take(i)) + sizes[i]),
    ) =~= m.code);
    assert(e.subrange(o, o + sum(sizes)) =~= m.code.flatten());
    assert forall|k: int| o <= k < o + sum(sizes) implies #[trigger] e[k] == b[k] by {
        assert(e[k] == e.subrange(o, o + sum(sizes))[k - o]);
        assert(b[k] == b.subrange(o, o + sum(sizes))[k - o]);
    }
    // data
    assert(sizes.take(n) == sizes);
    assert forall|k: int| o + sum(sizes) <= k < b.len() implies #[trigger] e[k] == b[k] by {
        assert(e[k] == m.data[k - o - sum(sizes)]);
    }
    assert(e =~= b);
}

} // verus!
