use vstd::prelude::*;

verus! {

/// Decimal digits of `n`, most significant first.
pub open spec fn decimal_digits(n: nat) -> Seq<u8>
    decreases n,
{
    if n < 10 {
        seq![(48 + n) as u8]
    } else {
        decimal_digits(n / 10) + seq![(48 + n % 10) as u8]
    }
}

/// The bytes of `column_`, the stem of every synthesized column name.
pub open spec fn column_prefix() -> Seq<u8> {
    seq![99u8, 111u8, 108u8, 117u8, 109u8, 110u8, 95u8]
}

/// The name synthesized for column `i` (0-based): `column_<i + 1>`.
pub open spec fn column_name(i: nat) -> Seq<u8> {
    column_prefix() + decimal_digits(i + 1)
}

/// The header synthesized for a source of `k` columns that declares none.
pub open spec fn synthesized_header(k: nat) -> Seq<Seq<u8>> {
    Seq::new(k, |i: int| column_name(i as nat))
}

/// Bytes of `.csv`.
pub open spec fn csv_suffix() -> Seq<u8> {
    seq![46u8, 99u8, 115u8, 118u8]
}

/// Bytes of `.xlsx`.
pub open spec fn xlsx_suffix() -> Seq<u8> {
    seq![46u8, 120u8, 108u8, 115u8, 120u8]
}

/// File name owed to shard `index` (1-based): `<stem>_<index>` with the
/// extension of the format it holds; the spreadsheet name replaces the
/// CSV name when conversion is requested.
pub open spec fn shard_name_spec(stem: Seq<u8>, index: nat, xlsx: bool) -> Seq<u8> {
    stem + seq![95u8] + decimal_digits(index) + if xlsx {
        xlsx_suffix()
    } else {
        csv_suffix()
    }
}

/// Appends the decimal rendering of `n`.
fn push_decimal(n: usize, out: &mut Vec<u8>)
    ensures
        final(out)@ == old(out)@ + decimal_digits(n as nat),
    decreases n,
{
    if n < 10 {
        out.push(48 + (n as u8));
        proof {
            assert(final(out)@ =~= old(out)@ + decimal_digits(n as nat));
        }
    } else {
        push_decimal(n / 10, out);
        let d = (n % 10) as u8;
        out.push(48 + d);
        proof {
            assert(final(out)@ =~= old(out)@ + decimal_digits(n as nat));
        }
    }
}

/// Builds the synthesized header `column_1 ..= column_k`.
pub fn synthesize_header(k: usize) -> (h: Vec<Vec<u8>>)
    ensures
        h.deep_view() == synthesized_header(k as nat),
{
    let mut h: Vec<Vec<u8>> = Vec::new();
    let mut i: usize = 0;
    while i < k
        invariant
            i <= k,
            h@.len() == i,
            forall|j: int| 0 <= j < i ==> #[trigger] h@[j]@ == column_name(j as nat),
        decreases k - i,
    {
        let mut name: Vec<u8> = Vec::new();
        name.push(99u8);
        name.push(111u8);
        name.push(108u8);
        name.push(117u8);
        name.push(109u8);
        name.push(110u8);
        name.push(95u8);
        proof {
            assert(name@ =~= column_prefix());
        }
        push_decimal(i + 1, &mut name);
        h.push(name);
        i += 1;
    }
    proof {
        assert(h.deep_view() =~~= synthesized_header(k as nat));
    }
    h
}

/// Builds the file name of shard `index`.
pub fn shard_file_name(stem: &Vec<u8>, index: usize, xlsx: bool) -> (r: Vec<u8>)
    ensures
        r@ == shard_name_spec(stem@, index as nat, xlsx),
{
    let mut r: Vec<u8> = Vec::new();
    let n = stem.len();
    let mut i: usize = 0;
    while i < n
        invariant
            n == stem@.len(),
            i <= n,
            r@ == stem@.take(i as int),
        decreases n - i,
    {
        r.push(stem[i]);
        proof {
            assert(r@ =~= stem@.take(i + 1));
        }
        i += 1;
    }
    proof {
        assert(r@ =~= stem@);
    }
    r.push(95u8);
    push_decimal(index, &mut r);
    if xlsx {
        r.push(46u8);
        r.push(120u8);
        r.push(108u8);
        r.push(115u8);
        r.push(120u8);
    } else {
        r.push(46u8);
        r.push(99u8);
        r.push(115u8);
        r.push(118u8);
    }
    proof {
        assert(r@ =~= shard_name_spec(stem@, index as nat, xlsx));
    }
    r
}

} // verus!
