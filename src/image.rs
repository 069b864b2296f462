//! The durable image of a store: the pairs of every column as a flat run of
//! records, each written `tag, key length, key, value length, value`, with the
//! lengths as 8-byte little-endian integers.
use vstd::prelude::*;
use vstd::bytes::{
    lemma_auto_spec_u64_to_from_le_bytes, spec_u64_from_le_bytes, spec_u64_to_le_bytes,
    u64_from_le_bytes, u64_to_le_bytes,
};
use crate::column::Column;
use crate::table::{enumerates, pairs_view, KeyMap};
use crate::write_batch::OpView;

verus! {

/// A stored pair together with its column.
pub type Record = (Column, Seq<u8>, Seq<u8>);

/// The byte that names a column in an image.
pub open spec fn column_tag(c: Column) -> u8 {
    match c {
        Column::BlockHeader => 0,
        Column::BlockBody => 1,
        Column::Transaction => 2,
    }
}

/// The column a tag byte names, if any.
pub open spec fn tag_column(t: u8) -> Option<Column> {
    if t == 0 {
        Some(Column::BlockHeader)
    } else if t == 1 {
        Some(Column::BlockBody)
    } else if t == 2 {
        Some(Column::Transaction)
    } else {
        None
    }
}

/// The record's key and value lengths can be written in 8 bytes.
pub open spec fn record_fits(r: Record) -> bool {
    r.1.len() <= u64::MAX && r.2.len() <= u64::MAX
}

pub open spec fn record_bytes(r: Record) -> Seq<u8> {
    seq![column_tag(r.0)] + spec_u64_to_le_bytes(r.1.len() as u64) + r.1 + spec_u64_to_le_bytes(r.2.len() as u64) + r.2
}

/// The records written one after another.
pub open spec fn records_bytes(rs: Seq<Record>) -> Seq<u8>
    decreases rs.len(),
{
    if rs.len() == 0 {
        Seq::empty()
    } else {
        record_bytes(rs[0]) + records_bytes(rs.drop_first())
    }
}

/// The first record of `b` and the number of bytes it takes, if `b` starts with one.
pub open spec fn parse_one(b: Seq<u8>) -> Option<(Record, nat)> {
    if b.len() < 9 || tag_column(b[0]).is_none() {
        None
    } else {
        let klen = spec_u64_from_le_bytes(b.subrange(1, 9)) as int;
        if b.len() < 17 + klen {
            None
        } else {
            let vlen = spec_u64_from_le_bytes(b.subrange(9 + klen, 17 + klen)) as int;
            if b.len() < 17 + klen + vlen {
                None
            } else {
                let key = b.subrange(9, 9 + klen);
                let value = b.subrange(17 + klen, 17 + klen + vlen);
                Some(((tag_column(b[0]).unwrap(), key, value), (17 + klen + vlen) as nat))
            }
        }
    }
}

/// The records that `b` holds, if it is a well-formed image.
pub open spec fn parse(b: Seq<u8>) -> Option<Seq<Record>>
    decreases b.len(),
{
    if b.len() == 0 {
        Some(Seq::empty())
    } else {
        match parse_one(b) {
            None => None,
            Some((r, n)) => match parse(b.skip(n as int)) {
                None => None,
                Some(rest) => Some(seq![r] + rest),
            },
        }
    }
}

pub proof fn lemma_records_bytes_push(rs: Seq<Record>, r: Record)
    ensures
        records_bytes(rs.push(r)) == records_bytes(rs) + record_bytes(r),
    decreases rs.len(),
{
    if rs.len() == 0 {
        assert(rs.push(r).drop_first() =~= Seq::<Record>::empty());
        assert(rs.push(r)[0] == r);
        assert(records_bytes(rs.push(r).drop_first()) == Seq::<u8>::empty());
        assert(records_bytes(rs.push(r)) =~= records_bytes(rs) + record_bytes(r));
    } else {
        lemma_records_bytes_push(rs.drop_first(), r);
        assert(rs.push(r).drop_first() =~= rs.drop_first().push(r));
        assert(rs.push(r)[0] == rs[0]);
        assert(records_bytes(rs.push(r)) == record_bytes(rs[0]) + (records_bytes(rs.drop_first()) + record_bytes(r)));
        assert(records_bytes(rs.push(r)) =~= records_bytes(rs) + record_bytes(r));
    }
}

proof fn lemma_parse_one_record(r: Record, rest: Seq<u8>)
    requires
        record_fits(r),
    ensures
        parse_one(record_bytes(r) + rest) == Some((r, record_bytes(r).len())),
        (record_bytes(r) + rest).skip(record_bytes(r).len() as int) == rest,
{
    lemma_auto_spec_u64_to_from_le_bytes();
    let b = record_bytes(r) + rest;
    let klen = r.1.len() as int;
    let vlen = r.2.len() as int;
    assert(spec_u64_to_le_bytes(klen as u64).len() == 8);
    assert(spec_u64_to_le_bytes(vlen as u64).len() == 8);
    assert(b.subrange(1, 9) =~= spec_u64_to_le_bytes(klen as u64));
    assert(b.subrange(9, 9 + klen) =~= r.1);
    assert(b.subrange(9 + klen, 17 + klen) =~= spec_u64_to_le_bytes(vlen as u64));
    assert(b.subrange(17 + klen, 17 + klen + vlen) =~= r.2);
    assert(b[0] == column_tag(r.0));
    assert(b.skip(record_bytes(r).len() as int) =~= rest);
}

/// Reading back the bytes of a run of records gives exactly those records.
pub proof fn lemma_parse_records_bytes(rs: Seq<Record>)
    requires
        forall|i: int| 0 <= i < rs.len() ==> record_fits(#[trigger] rs[i]),
    ensures
        parse(records_bytes(rs)) == Some(rs),
    decreases rs.len(),
{
    if rs.len() > 0 {
        let rest = rs.drop_first();
        assert forall|i: int| 0 <= i < rest.len() implies record_fits(#[trigger] rest[i]) by {
            assert(rest[i] == rs[i + 1]);
        }
        lemma_parse_records_bytes(rest);
        lemma_parse_one_record(rs[0], records_bytes(rest));
        assert(seq![rs[0]] + rest =~= rs);
    }
}

/// Whatever parses as records is exactly the bytes of those records.
pub proof fn lemma_parse_sound(b: Seq<u8>)
    requires
        parse(b).is_some(),
    ensures
        records_bytes(parse(b).unwrap()) == b,
    decreases b.len(),
{
    lemma_auto_spec_u64_to_from_le_bytes();
    if b.len() > 0 {
        let (r, n) = parse_one(b).unwrap();
        lemma_parse_sound(b.skip(n as int));
        let rs = parse(b).unwrap();
        assert(rs.drop_first() =~= parse(b.skip(n as int)).unwrap());
        let klen = r.1.len() as int;
        assert(spec_u64_to_le_bytes(spec_u64_from_le_bytes(b.subrange(1, 9))) == b.subrange(1, 9));
        assert(spec_u64_to_le_bytes(spec_u64_from_le_bytes(b.subrange(9 + klen, 17 + klen))) == b.subrange(9 + klen, 17 + klen));
        assert(column_tag(r.0) == b[0]);
        assert(record_bytes(r) =~= b.subrange(0, n as int));
        assert(b =~= b.subrange(0, n as int) + b.skip(n as int));
    }
}

/// The view of owned records.
pub open spec fn records_view(v: Seq<(Column, Vec<u8>, Vec<u8>)>) -> Seq<Record> {
    v.map_values(|t: (Column, Vec<u8>, Vec<u8>)| (t.0, t.1@, t.2@))
}

/// `p` followed by what `o` holds, if it holds anything.
pub open spec fn prepend(p: Seq<Record>, o: Option<Seq<Record>>) -> Option<Seq<Record>> {
    match o {
        Some(rest) => Some(p + rest),
        None => None,
    }
}

/// Appends the bytes of `s` to `out`.
pub fn append_bytes(out: &mut Vec<u8>, s: &[u8])
    ensures
        final(out)@ == old(out)@ + s@,
{
    let mut i: usize = 0;
    while i < s.len()
        invariant
            i <= s@.len(),
            out@ == old(out)@ + s@.subrange(0, i as int),
        decreases s@.len() - i,
    {
        out.push(s[i]);
        i = i + 1;
        proof {
            assert(out@ =~= old(out)@ + s@.subrange(0, i as int));
        }
    }
    proof {
        assert(s@.subrange(0, s@.len() as int) =~= s@);
    }
}

fn copy_range(s: &[u8], from: usize, to: usize) -> (r: Vec<u8>)
    requires
        from <= to <= s@.len(),
    ensures
        r@ == s@.subrange(from as int, to as int),
{
    let mut r: Vec<u8> = Vec::new();
    let mut i: usize = from;
    while i < to
        invariant
            from <= i <= to <= s@.len(),
            r@ == s@.subrange(from as int, i as int),
        decreases to - i,
    {
        r.push(s[i]);
        i = i + 1;
        proof {
            assert(r@ =~= s@.subrange(from as int, i as int));
        }
    }
    r
}

fn tag_of(c: Column) -> (r: u8)
    ensures
        r == column_tag(c),
{
    match c {
        Column::BlockHeader => 0,
        Column::BlockBody => 1,
        Column::Transaction => 2,
    }
}

/// Appends the record of `key` and `value` in `column` to `out`.
pub fn append_record(out: &mut Vec<u8>, column: Column, key: &[u8], value: &[u8])
    ensures
        final(out)@ == old(out)@ + record_bytes((column, key@, value@)),
{
    out.push(tag_of(column));
    let klen = u64_to_le_bytes(key.len() as u64);
    append_bytes(out, klen.as_slice());
    append_bytes(out, key);
    let vlen = u64_to_le_bytes(value.len() as u64);
    append_bytes(out, vlen.as_slice());
    append_bytes(out, value);
    proof {
        assert(final(out)@ =~= old(out)@ + record_bytes((column, key@, value@)));
    }
}

/// The records that `bytes` holds, or `None` if it is not a well-formed image.
pub fn decode(bytes: &[u8]) -> (r: Option<Vec<(Column, Vec<u8>, Vec<u8>)>>)
    ensures
        match r {
            Some(v) => parse(bytes@) == Some(records_view(v@)),
            None => parse(bytes@).is_none(),
        },
{
    let mut out: Vec<(Column, Vec<u8>, Vec<u8>)> = Vec::new();
    let mut pos: usize = 0;
    proof {
        assert(bytes@.skip(0) =~= bytes@);
        assert(records_view(out@) + parse(bytes@).unwrap_or(Seq::empty()) =~= parse(bytes@).unwrap_or(Seq::empty()));
    }
    while pos < bytes.len()
        invariant
            pos <= bytes@.len(),
            parse(bytes@) == prepend(records_view(out@), parse(bytes@.skip(pos as int))),
        decreases bytes@.len() - pos,
    {
        let ghost b = bytes@.skip(pos as int);
        let rem: usize = bytes.len() - pos;
        if rem < 9 {
            return None;
        }
        let column = match bytes[pos] {
            0 => Column::BlockHeader,
            1 => Column::BlockBody,
            2 => Column::Transaction,
            _ => {
                return None;
            },
        };
        assert(b[0] == bytes@[pos as int]);
        let klen_bytes = copy_range(bytes, pos + 1, pos + 9);
        assert(klen_bytes@ =~= b.subrange(1, 9));
        let klen = u64_from_le_bytes(klen_bytes.as_slice());
        if rem < 17 || klen > (rem - 17) as u64 {
            return None;
        }
        let klen = klen as usize;
        let vlen_bytes = copy_range(bytes, pos + 9 + klen, pos + 17 + klen);
        assert(vlen_bytes@ =~= b.subrange(9 + klen, 17 + klen));
        let vlen = u64_from_le_bytes(vlen_bytes.as_slice());
        if vlen > (rem - 17 - klen) as u64 {
            return None;
        }
        let vlen = vlen as usize;
        let key = copy_range(bytes, pos + 9, pos + 9 + klen);
        let value = copy_range(bytes, pos + 17 + klen, pos + 17 + klen + vlen);
        let n: usize = 17 + klen + vlen;
        proof {
            assert(key@ =~= b.subrange(9, 9 + klen));
            assert(value@ =~= b.subrange(17 + klen, 17 + klen + vlen));
            assert(parse_one(b) == Some(((column, key@, value@), n as nat)));
            assert(b.skip(n as int) =~= bytes@.skip(pos + n));
        }
        let ghost before = records_view(out@);
        out.push((column, key, value));
        proof {
            let r: Record = (column, key@, value@);
            assert(records_view(out@) =~= before.push(r));
            match parse(bytes@.skip(pos + n)) {
                Some(rest) => {
                    assert(before + (seq![r] + rest) =~= before.push(r) + rest);
                },
                None => {},
            }
        }
        pos = pos + n;
    }
    proof {
        assert(bytes@.skip(pos as int) =~= Seq::<u8>::empty());
        assert(records_view(out@) + Seq::<Record>::empty() =~= records_view(out@));
    }
    Some(out)
}

/// Records of column `c` for the pairs of `s`, in order.
pub open spec fn tagged(c: Column, s: Seq<(Seq<u8>, Seq<u8>)>) -> Seq<Record> {
    s.map_values(|p: (Seq<u8>, Seq<u8>)| (c, p.0, p.1))
}

/// `s` is what an image holds for column `c` of `m`: its pairs in ascending key
/// order, or nothing for a column that `m` lacks.
pub open spec fn column_section(m: Map<Column, KeyMap>, c: Column, s: Seq<(Seq<u8>, Seq<u8>)>) -> bool {
    if m.contains_key(c) {
        enumerates(s, m[c])
    } else {
        s.len() == 0
    }
}

/// The records of an image of `m`, given each column's section.
pub open spec fn image_records(
    h: Seq<(Seq<u8>, Seq<u8>)>,
    b: Seq<(Seq<u8>, Seq<u8>)>,
    t: Seq<(Seq<u8>, Seq<u8>)>,
) -> Seq<Record> {
    tagged(Column::BlockHeader, h) + tagged(Column::BlockBody, b) + tagged(Column::Transaction, t)
}

/// `bytes` is the image of `m`: the block header column's pairs, then the block
/// body column's, then the transaction column's, each in ascending key order.
pub open spec fn is_image_of(bytes: Seq<u8>, m: Map<Column, KeyMap>) -> bool {
    exists|h: Seq<(Seq<u8>, Seq<u8>)>, b: Seq<(Seq<u8>, Seq<u8>)>, t: Seq<(Seq<u8>, Seq<u8>)>|
        #![trigger image_records(h, b, t)]
        column_section(m, Column::BlockHeader, h) && column_section(m, Column::BlockBody, b)
            && column_section(m, Column::Transaction, t) && bytes == records_bytes(image_records(h, b, t))
}

/// Appends the records of column `c` for `pairs` to `out`.
pub fn append_column(out: &mut Vec<u8>, c: Column, pairs: &Vec<(Vec<u8>, Vec<u8>)>, Ghost(prev): Ghost<Seq<Record>>)
    requires
        old(out)@ == records_bytes(prev),
    ensures
        final(out)@ == records_bytes(prev + tagged(c, pairs_view(pairs@))),
{
    let mut j: usize = 0;
    while j < pairs.len()
        invariant
            j <= pairs@.len(),
            out@ == records_bytes(prev + tagged(c, pairs_view(pairs@).take(j as int))),
        decreases pairs@.len() - j,
    {
        let ghost before = prev + tagged(c, pairs_view(pairs@).take(j as int));
        append_record(out, c, pairs[j].0.as_slice(), pairs[j].1.as_slice());
        proof {
            let r: Record = (c, pairs@[j as int].0@, pairs@[j as int].1@);
            lemma_records_bytes_push(before, r);
            assert(prev + tagged(c, pairs_view(pairs@).take(j + 1)) =~= before.push(r));
        }
        j = j + 1;
    }
    proof {
        assert(pairs_view(pairs@).take(pairs@.len() as int) =~= pairs_view(pairs@));
    }
}

/// The records as writes: a put for each.
pub open spec fn as_ops(rs: Seq<Record>) -> Seq<OpView> {
    rs.map_values(|r: Record| (r.0, r.1, Some(r.2)))
}

/// Empty contents for each of `columns`.
pub open spec fn empty_columns(columns: Seq<Column>) -> Map<Column, KeyMap> {
    Map::new(|c: Column| columns.contains(c), |c: Column| KeyMap::empty())
}

/// Every record names one of `columns`.
pub open spec fn records_in(rs: Seq<Record>, columns: Seq<Column>) -> bool {
    forall|i: int| 0 <= i < rs.len() ==> columns.contains(#[trigger] rs[i].0)
}

} // verus!
