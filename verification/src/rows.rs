//! Rows laid end to end.
use vstd::prelude::*;

verus! {

/// All rows, laid end to end.
pub open spec fn joined<A>(rows: Seq<Seq<A>>) -> Seq<A>
    decreases rows.len(),
{
    if rows.len() == 0 {
        Seq::empty()
    } else {
        joined(rows.drop_last()) + rows.last()
    }
}

/// Whether every row has `width` elements.
pub open spec fn uniform<A>(rows: Seq<Seq<A>>, width: nat) -> bool {
    forall|k: int| 0 <= k < rows.len() ==> (#[trigger] rows[k]).len() == width
}

/// One more row goes to the end.
pub proof fn lemma_joined_push<A>(rows: Seq<Seq<A>>, row: Seq<A>)
    ensures
        joined(rows.push(row)) == joined(rows) + row,
{
    assert(rows.push(row).drop_last() =~= rows);
}

/// Rows of one width make up a whole number of widths.
pub proof fn law_uniform_rows_fill_a_matrix<A>(rows: Seq<Seq<A>>, width: nat)
    requires
        uniform(rows, width),
    ensures
        joined(rows).len() == rows.len() * width,
    decreases rows.len(),
{
    if rows.len() > 0 {
        let rest = rows.drop_last();
        assert forall|k: int| 0 <= k < rest.len() implies (#[trigger] rest[k]).len() == width by {
            assert(rest[k] == rows[k]);
        }
        law_uniform_rows_fill_a_matrix(rest, width);
        assert(rows[rows.len() - 1].len() == width);
        assert(rows.len() * width == rest.len() * width + width) by (nonlinear_arith)
            requires
                rows.len() == rest.len() + 1,
        ;
    } else {
        assert(rows.len() * width == 0) by (nonlinear_arith)
            requires
                rows.len() == 0,
        ;
    }
}

/// Of rows of one width, element `j` of row `k` is at `k * width + j`.
pub proof fn law_uniform_rows_are_a_matrix<A>(rows: Seq<Seq<A>>, width: nat, k: int, j: int)
    requires
        uniform(rows, width),
        0 <= k < rows.len(),
        0 <= j < width,
    ensures
        0 <= k * width + j < joined(rows).len(),
        joined(rows)[k * width + j] == rows[k][j],
    decreases rows.len(),
{
    let rest = rows.drop_last();
    assert forall|i: int| 0 <= i < rest.len() implies (#[trigger] rest[i]).len() == width by {
        assert(rest[i] == rows[i]);
    }
    law_uniform_rows_fill_a_matrix(rest, width);
    assert(rows[rows.len() - 1].len() == width);
    assert(0 <= k * width) by (nonlinear_arith)
        requires
            0 <= k,
            0 <= width,
    ;
    if k < rest.len() {
        law_uniform_rows_are_a_matrix(rest, width, k, j);
    } else {
        assert(k == rest.len());
    }
}

/// Rows laid end to end are the rows in order, with nothing between them and
/// nothing left out.
pub proof fn law_joined_is_flat<A>(rows: Seq<Seq<A>>)
    ensures
        joined(rows) == rows.flatten(),
{
    lemma_joined_is_flat(rows);
    rows.lemma_flatten_and_flatten_alt_are_equivalent();
}

proof fn lemma_joined_is_flat<A>(rows: Seq<Seq<A>>)
    ensures
        joined(rows) == rows.flatten_alt(),
    decreases rows.len(),
{
    if rows.len() > 0 {
        lemma_joined_is_flat(rows.drop_last());
    }
}

/// Of rows laid end to end, element `j` of row `k` comes `j` places after the
/// rows before it.
pub proof fn law_rows_follow_each_other<A>(rows: Seq<Seq<A>>, k: int, j: int)
    requires
        0 <= k < rows.len(),
        0 <= j < rows[k].len(),
    ensures
        rows.take(k).flatten().len() + j < rows.flatten().len(),
        rows.flatten()[rows.take(k).flatten().len() + j] == rows[k][j],
    decreases rows.len(),
{
    let rest = rows.drop_last();
    law_joined_is_flat(rows);
    law_joined_is_flat(rest);
    if k < rest.len() {
        law_rows_follow_each_other(rest, k, j);
        assert(rest.take(k) =~= rows.take(k));
    } else {
        assert(rows.take(k) =~= rest);
    }
}

/// Every element of rows laid end to end is an element of one of the rows.
pub proof fn law_places_come_from_rows<A>(rows: Seq<Seq<A>>, at: int) -> (place: (int, int))
    requires
        0 <= at < rows.flatten().len(),
    ensures
        0 <= place.0 < rows.len(),
        0 <= place.1 < rows[place.0].len(),
        at == rows.take(place.0).flatten().len() + place.1,
    decreases rows.len(),
{
    let rest = rows.drop_last();
    law_joined_is_flat(rows);
    law_joined_is_flat(rest);
    if at < rest.flatten().len() {
        let place = law_places_come_from_rows(rest, at);
        assert(rest.take(place.0) =~= rows.take(place.0));
        place
    } else {
        assert(rows.take(rows.len() - 1) =~= rest);
        (rows.len() - 1, at - rest.flatten().len())
    }
}

} // verus!
