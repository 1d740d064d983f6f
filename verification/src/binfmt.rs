use vstd::prelude::*;

verus! {

use vstd::bytes::lemma_auto_spec_u32_to_from_le_bytes;
use vstd::bytes::spec_u32_from_le_bytes;
use vstd::bytes::spec_u32_to_le_bytes;
use vstd::bytes::u32_to_le_bytes;
use vstd::utf8::decode_utf8;
use vstd::utf8::encode_utf8;
use vstd::utf8::encode_utf8_decode_utf8;
use vstd::utf8::encode_utf8_valid_utf8;
use vstd::utf8::valid_utf8;

/// The length header of the transport layout: one little-endian 32-bit
/// byte length per line, in order.
pub open spec fn lens_bytes(ls: Seq<Seq<u8>>) -> Seq<u8>
    decreases ls.len(),
{
    if ls.len() == 0 {
        Seq::empty()
    } else {
        spec_u32_to_le_bytes(ls[0].len() as u32) + lens_bytes(ls.drop_first())
    }
}

/// The payload of the transport layout: every line's bytes, in order.
pub open spec fn cat_bytes(ls: Seq<Seq<u8>>) -> Seq<u8>
    decreases ls.len(),
{
    if ls.len() == 0 {
        Seq::empty()
    } else {
        ls[0] + cat_bytes(ls.drop_first())
    }
}

/// The complete transport layout for a list of encoded lines: a
/// little-endian 32-bit line count, the length header, then the payload.
pub open spec fn binary_of(ls: Seq<Seq<u8>>) -> Seq<u8> {
    spec_u32_to_le_bytes(ls.len() as u32) + lens_bytes(ls) + cat_bytes(ls)
}

/// When the layout is faithful: the count and every length fit the
/// 32-bit header fields.
pub open spec fn encodable(ls: Seq<Seq<u8>>) -> bool {
    &&& ls.len() <= u32::MAX
    &&& forall|i: int| 0 <= i < ls.len() ==> (#[trigger] ls[i]).len() <= u32::MAX
}

/// Sum of the first `i` entries of a length list.
pub open spec fn sum_prefix(lens: Seq<int>, i: int) -> int
    decreases i,
{
    if i <= 0 {
        0
    } else {
        sum_prefix(lens, i - 1) + lens[i - 1]
    }
}

/// The byte lengths of a list of encoded lines.
pub open spec fn lens_of(ls: Seq<Seq<u8>>) -> Seq<int> {
    ls.map_values(|s: Seq<u8>| s.len() as int)
}

/// What parsing the transport layout yields: the line count, then the
/// lengths, then the payload cut at the summed lengths; a blob whose
/// size does not match its own header parses to nothing.
pub open spec fn spec_decode(b: Seq<u8>) -> Option<Seq<Seq<u8>>> {
    if b.len() < 4 {
        None
    } else {
        let n = spec_u32_from_le_bytes(b.take(4)) as int;
        if b.len() < 4 + 4 * n {
            None
        } else {
            let lens = Seq::new(
                n as nat,
                |i: int| spec_u32_from_le_bytes(b.subrange(4 + 4 * i, 8 + 4 * i)) as int,
            );
            let data0 = 4 + 4 * n;
            if b.len() != data0 + sum_prefix(lens, n) {
                None
            } else {
                Some(
                    Seq::new(
                        n as nat,
                        |i: int|
                            b.subrange(
                                data0 + sum_prefix(lens, i),
                                data0 + sum_prefix(lens, i) + lens[i],
                            ),
                    ),
                )
            }
        }
    }
}

proof fn lemma_lens_bytes_push(ls: Seq<Seq<u8>>, x: Seq<u8>)
    ensures
        lens_bytes(ls.push(x)) == lens_bytes(ls) + spec_u32_to_le_bytes(x.len() as u32),
    decreases ls.len(),
{
    lemma_auto_spec_u32_to_from_le_bytes();
    if ls.len() == 0 {
        assert(ls.push(x).drop_first() =~= ls);
        assert(lens_bytes(ls.push(x)) =~= lens_bytes(ls) + spec_u32_to_le_bytes(x.len() as u32));
    } else {
        assert(ls.push(x).drop_first() =~= ls.drop_first().push(x));
        lemma_lens_bytes_push(ls.drop_first(), x);
        assert(lens_bytes(ls.push(x)) =~= lens_bytes(ls) + spec_u32_to_le_bytes(x.len() as u32));
    }
}

proof fn lemma_cat_bytes_push(ls: Seq<Seq<u8>>, x: Seq<u8>)
    ensures
        cat_bytes(ls.push(x)) == cat_bytes(ls) + x,
    decreases ls.len(),
{
    if ls.len() == 0 {
        assert(ls.push(x).drop_first() =~= ls);
        assert(cat_bytes(ls.push(x)) =~= cat_bytes(ls) + x);
    } else {
        assert(ls.push(x).drop_first() =~= ls.drop_first().push(x));
        lemma_cat_bytes_push(ls.drop_first(), x);
        assert(cat_bytes(ls.push(x)) =~= cat_bytes(ls) + x);
    }
}

proof fn lemma_lens_bytes_len(ls: Seq<Seq<u8>>)
    ensures
        lens_bytes(ls).len() == 4 * ls.len(),
    decreases ls.len(),
{
    lemma_auto_spec_u32_to_from_le_bytes();
    if ls.len() > 0 {
        lemma_lens_bytes_len(ls.drop_first());
    }
}

proof fn lemma_cat_bytes_len(ls: Seq<Seq<u8>>)
    ensures
        cat_bytes(ls).len() == sum_prefix(lens_of(ls), ls.len() as int),
    decreases ls.len(),
{
    if ls.len() > 0 {
        lemma_cat_bytes_len(ls.drop_first());
        lemma_sum_prefix_drop_first(lens_of(ls), ls.len() as int);
        assert(lens_of(ls).drop_first() =~= lens_of(ls.drop_first()));
        lemma_sum_prefix_congruence(
            lens_of(ls).drop_first(),
            lens_of(ls.drop_first()),
            ls.len() as int - 1,
        );
    }
}

/// The prefix sum from the second entry on, plus the first entry, is the
/// whole prefix sum.
proof fn lemma_sum_prefix_drop_first(lens: Seq<int>, i: int)
    requires
        1 <= i <= lens.len(),
    ensures
        sum_prefix(lens, i) == lens[0] + sum_prefix(lens.drop_first(), i - 1),
    decreases i,
{
    if i == 1 {
        assert(sum_prefix(lens, 0) == 0);
        assert(sum_prefix(lens, 1) == lens[0]);
        assert(sum_prefix(lens.drop_first(), 0) == 0);
    } else {
        lemma_sum_prefix_drop_first(lens, i - 1);
        assert(lens.drop_first()[i - 2] == lens[i - 1]);
        assert(sum_prefix(lens.drop_first(), i - 1) == sum_prefix(lens.drop_first(), i - 2)
            + lens.drop_first()[i - 2]);
        assert(sum_prefix(lens, i) == sum_prefix(lens, i - 1) + lens[i - 1]);
    }
}

proof fn lemma_sum_prefix_congruence(a: Seq<int>, b: Seq<int>, i: int)
    requires
        a == b,
    ensures
        sum_prefix(a, i) == sum_prefix(b, i),
{
}

/// Prefix sums of nonnegative lengths grow with the prefix.
proof fn lemma_sum_prefix_mono(lens: Seq<int>, i: int, j: int)
    requires
        0 <= i <= j <= lens.len(),
        forall|k: int| 0 <= k < lens.len() ==> lens[k] >= 0,
    ensures
        sum_prefix(lens, i) <= sum_prefix(lens, j),
    decreases j - i,
{
    if i < j {
        lemma_sum_prefix_mono(lens, i, j - 1);
    }
}

/// Where each length stands in the length header.
proof fn lemma_lens_bytes_at(ls: Seq<Seq<u8>>, i: int)
    requires
        0 <= i < ls.len(),
    ensures
        lens_bytes(ls).subrange(4 * i, 4 * i + 4) == spec_u32_to_le_bytes(ls[i].len() as u32),
    decreases i,
{
    lemma_auto_spec_u32_to_from_le_bytes();
    lemma_lens_bytes_len(ls);
    lemma_lens_bytes_len(ls.drop_first());
    if i == 0 {
        assert(lens_bytes(ls).subrange(0, 4) =~= spec_u32_to_le_bytes(ls[0].len() as u32));
    } else {
        lemma_lens_bytes_at(ls.drop_first(), i - 1);
        assert(lens_bytes(ls).subrange(4 * i, 4 * i + 4) =~= lens_bytes(
            ls.drop_first(),
        ).subrange(4 * (i - 1), 4 * (i - 1) + 4));
    }
}

/// Where each line's bytes stand in the payload.
proof fn lemma_cat_bytes_at(ls: Seq<Seq<u8>>, i: int)
    requires
        0 <= i < ls.len(),
    ensures
        0 <= sum_prefix(lens_of(ls), i),
        sum_prefix(lens_of(ls), i) + ls[i].len() <= cat_bytes(ls).len(),
        cat_bytes(ls).subrange(
            sum_prefix(lens_of(ls), i),
            sum_prefix(lens_of(ls), i) + ls[i].len(),
        ) == ls[i],
    decreases i,
{
    let lo = lens_of(ls);
    lemma_cat_bytes_len(ls);
    assert forall|k: int| 0 <= k < lo.len() implies lo[k] >= 0 by {}
    lemma_sum_prefix_mono(lo, 0, i);
    assert(sum_prefix(lo, i + 1) == sum_prefix(lo, i) + lo[i]);
    lemma_sum_prefix_mono(lo, i + 1, ls.len() as int);
    if i == 0 {
        assert(cat_bytes(ls).subrange(0, ls[0].len() as int) =~= ls[0]);
    } else {
        let dr = ls.drop_first();
        lemma_cat_bytes_at(dr, i - 1);
        lemma_sum_prefix_drop_first(lo, i);
        assert(lens_of(dr) =~= lo.drop_first());
        lemma_sum_prefix_congruence(lens_of(dr), lo.drop_first(), i - 1);
        let s0 = ls[0].len() as int;
        let a = sum_prefix(lens_of(dr), i - 1);
        assert(sum_prefix(lo, i) == s0 + a);
        assert(dr[i - 1] == ls[i]);
        assert(cat_bytes(ls) == ls[0] + cat_bytes(dr));
        assert(cat_bytes(ls).subrange(s0 + a, s0 + a + ls[i].len()) =~= cat_bytes(dr).subrange(
            a,
            a + ls[i].len(),
        ));
    }
}

/// Round trip of the transport layout: a blob built from encodable lines
/// parses back to exactly those lines.
pub proof fn lemma_binary_round_trip(ls: Seq<Seq<u8>>)
    requires
        encodable(ls),
    ensures
        spec_decode(binary_of(ls)) == Some(ls),
{
    lemma_auto_spec_u32_to_from_le_bytes();
    let b = binary_of(ls);
    let n = ls.len() as int;
    lemma_lens_bytes_len(ls);
    lemma_cat_bytes_len(ls);
    assert(b.take(4) =~= spec_u32_to_le_bytes(n as u32));
    assert(spec_u32_from_le_bytes(b.take(4)) == n as u32);
    let lens = Seq::new(
        n as nat,
        |i: int| spec_u32_from_le_bytes(b.subrange(4 + 4 * i, 8 + 4 * i)) as int,
    );
    assert forall|i: int| 0 <= i < n implies lens[i] == lens_of(ls)[i] by {
        lemma_lens_bytes_at(ls, i);
        assert(b.subrange(4 + 4 * i, 8 + 4 * i) =~= lens_bytes(ls).subrange(4 * i, 4 * i + 4));
        assert(spec_u32_from_le_bytes(spec_u32_to_le_bytes(ls[i].len() as u32)) == ls[i].len()
            as u32);
    }
    assert(lens =~= lens_of(ls));
    lemma_sum_prefix_congruence(lens, lens_of(ls), n);
    let data0 = 4 + 4 * n;
    assert(b.len() == data0 + sum_prefix(lens, n));
    let decoded = Seq::new(
        n as nat,
        |i: int| b.subrange(data0 + sum_prefix(lens, i), data0 + sum_prefix(lens, i) + lens[i]),
    );
    assert forall|i: int| 0 <= i < n implies decoded[i] == ls[i] by {
        lemma_cat_bytes_at(ls, i);
        lemma_sum_prefix_congruence(lens, lens_of(ls), i);
        assert(b.subrange(data0 + sum_prefix(lens, i), data0 + sum_prefix(lens, i) + lens[i])
            =~= cat_bytes(ls).subrange(
            sum_prefix(lens_of(ls), i),
            sum_prefix(lens_of(ls), i) + ls[i].len(),
        ));
    }
    assert(decoded =~= ls);
}

/// The transport blob for a list of line texts decodes back to exactly
/// those texts: parsing the layout recovers each line's UTF-8 bytes, and
/// decoding the bytes recovers each line's characters.
pub proof fn lemma_binary_recovers_text(texts: Seq<Seq<char>>)
    requires
        texts.len() <= u32::MAX,
        forall|i: int| 0 <= i < texts.len() ==> encode_utf8(#[trigger] texts[i]).len()
            <= u32::MAX,
    ensures
        ({
            let els = texts.map_values(|t: Seq<char>| encode_utf8(t));
            &&& spec_decode(binary_of(els)) == Some(els)
            &&& forall|i: int|
                0 <= i < els.len() ==> valid_utf8(#[trigger] els[i]) && decode_utf8(els[i])
                    == texts[i]
        }),
{
    broadcast use encode_utf8_valid_utf8;
    broadcast use encode_utf8_decode_utf8;

    let els = texts.map_values(|t: Seq<char>| encode_utf8(t));
    assert forall|i: int| 0 <= i < els.len() implies (#[trigger] els[i]).len() <= u32::MAX by {
        assert(els[i] == encode_utf8(texts[i]));
    }
    lemma_binary_round_trip(els);
}

/// Serialize lines for transport in the layout above. Fails only when
/// the line count or some line's byte length overflows the 32-bit header
/// fields.
pub fn encode_lines(lines: &Vec<String>) -> (r: Option<Vec<u8>>)
    ensures
        ({
            let els = lines@.map_values(|s: String| encode_utf8(s@));
            &&& r is Some <==> encodable(els)
            &&& r matches Some(b) ==> b@ == binary_of(els)
        }),
{
    let ghost els = lines@.map_values(|s: String| encode_utf8(s@));
    proof {
        lemma_auto_spec_u32_to_from_le_bytes();
    }
    let n = lines.len();
    if n > u32::MAX as usize {
        return None;
    }
    let mut buffer: Vec<u8> = u32_to_le_bytes(n as u32);
    let mut i: usize = 0;
    while i < n
        invariant
            n == lines@.len(),
            n <= u32::MAX,
            els == lines@.map_values(|s: String| encode_utf8(s@)),
            i <= n,
            forall|j: int| 0 <= j < i ==> (#[trigger] els[j]).len() <= u32::MAX,
            buffer@ == spec_u32_to_le_bytes(n as u32) + lens_bytes(els.take(i as int)),
        decreases n - i,
    {
        let bs = lines[i].as_str().as_bytes();
        let len_i = bs.len();
        proof {
            assert(els[i as int] == encode_utf8(lines@[i as int]@));
            assert(bs@ == els[i as int]);
            assert(len_i == els[i as int].len());
        }
        if len_i > u32::MAX as usize {
            return None;
        }
        let mut lb = u32_to_le_bytes(len_i as u32);
        buffer.append(&mut lb);
        proof {
            assert(els.take(i + 1) =~= els.take(i as int).push(els[i as int]));
            lemma_lens_bytes_push(els.take(i as int), els[i as int]);
            assert(buffer@ =~= spec_u32_to_le_bytes(n as u32) + lens_bytes(els.take(i + 1)));
        }
        i = i + 1;
    }
    proof {
        assert(els.take(n as int) =~= els);
    }
    let mut i: usize = 0;
    while i < n
        invariant
            n == lines@.len(),
            els == lines@.map_values(|s: String| encode_utf8(s@)),
            i <= n,
            buffer@ == spec_u32_to_le_bytes(n as u32) + lens_bytes(els) + cat_bytes(
                els.take(i as int),
            ),
        decreases n - i,
    {
        let bs = lines[i].as_str().as_bytes();
        buffer.extend_from_slice(bs);
        proof {
            assert(bs@ == els[i as int]);
            assert(els.take(i + 1) =~= els.take(i as int).push(els[i as int]));
            lemma_cat_bytes_push(els.take(i as int), els[i as int]);
            assert(buffer@ =~= spec_u32_to_le_bytes(n as u32) + lens_bytes(els) + cat_bytes(
                els.take(i + 1),
            ));
        }
        i = i + 1;
    }
    proof {
        assert(els.take(n as int) =~= els);
        assert(buffer@ == binary_of(els));
    }
    Some(buffer)
}

} // verus!
