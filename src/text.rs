use vstd::prelude::*;

verus! {

/// The ASCII digit of `d`, for `d < 10`.
pub open spec fn digit(d: nat) -> u8 {
    (48 + d) as u8
}

/// The decimal text of `n`, without leading zeros.
pub open spec fn decimal(n: nat) -> Seq<u8>
    decreases n,
{
    if n < 10 {
        seq![digit(n)]
    } else {
        decimal(n / 10).push(digit(n % 10))
    }
}

/// A length in hundredths written as units with exactly two decimals
/// (`4000` is `40.00`, `7` is `0.07`).
pub open spec fn centi_text(d: nat) -> Seq<u8> {
    decimal(d / 100) + seq![46u8, digit((d / 10) % 10), digit(d % 10)]
}

/// The line that the points log holds for the point `id`.
pub open spec fn point_line_spec(id: nat) -> Seq<u8> {
    decimal(id).push(10u8)
}

/// The line that the connections log holds for a connection:
/// `"<start_id> <end_id> <distance>"`, the distance with two decimals.
pub open spec fn connection_line_spec(start_id: nat, end_id: nat, distance: nat) -> Seq<u8> {
    decimal(start_id) + seq![32u8] + decimal(end_id) + seq![32u8] + centi_text(distance) + seq![
        10u8,
    ]
}

/// The label drawn beside a line: its length in pixels, two decimals,
/// then `" px"`.
pub open spec fn label_spec(distance: nat) -> Seq<u8> {
    centi_text(distance) + seq![32u8, 112u8, 120u8]
}

/// Appends the decimal text of `n` to `out`.
pub fn push_decimal(out: &mut Vec<u8>, n: u64)
    ensures
        final(out)@ == old(out)@ + decimal(n as nat),
    decreases n,
{
    if n >= 10 {
        push_decimal(out, n / 10);
    }
    out.push((48 + n % 10) as u8);
    assert(final(out)@ =~= old(out)@ + decimal(n as nat));
}

/// Appends `d` hundredths, written with two decimals, to `out`.
pub fn push_centi(out: &mut Vec<u8>, d: u64)
    ensures
        final(out)@ == old(out)@ + centi_text(d as nat),
{
    push_decimal(out, d / 100);
    out.push(46u8);
    out.push((48 + (d / 10) % 10) as u8);
    out.push((48 + d % 10) as u8);
    assert(final(out)@ =~= old(out)@ + centi_text(d as nat));
}

/// The line to append to the points log for the point `id`.
pub fn point_line(id: u64) -> (r: Vec<u8>)
    ensures
        r@ == point_line_spec(id as nat),
{
    let mut out: Vec<u8> = Vec::new();
    push_decimal(&mut out, id);
    out.push(10u8);
    assert(out@ =~= point_line_spec(id as nat));
    out
}

/// The line to append to the connections log for a connection from the
/// point `start_id` to the point `end_id`, `distance` hundredths of a
/// pixel long.
pub fn connection_line(start_id: u64, end_id: u64, distance: u64) -> (r: Vec<u8>)
    ensures
        r@ == connection_line_spec(start_id as nat, end_id as nat, distance as nat),
{
    let mut out: Vec<u8> = Vec::new();
    push_decimal(&mut out, start_id);
    out.push(32u8);
    push_decimal(&mut out, end_id);
    out.push(32u8);
    push_centi(&mut out, distance);
    out.push(10u8);
    assert(out@ =~= connection_line_spec(start_id as nat, end_id as nat, distance as nat));
    out
}

/// The label for a length of `distance` hundredths of a pixel.
pub fn distance_label(distance: u64) -> (r: Vec<u8>)
    ensures
        r@ == label_spec(distance as nat),
{
    let mut out: Vec<u8> = Vec::new();
    push_centi(&mut out, distance);
    out.push(32u8);
    out.push(112u8);
    out.push(120u8);
    assert(out@ =~= label_spec(distance as nat));
    out
}

} // verus!
