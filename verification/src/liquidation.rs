use vstd::prelude::*;
use crate::board::{
    any_mortgaged, board_wf, color_valid, has_houses, held_whole, houses_valid,
    lemma_estate_colors, lemma_mortgaged_has_no_house, lemma_mortgaged_is_bare,
    lemma_place_layout, lemma_place_shape, lemma_same_color, lemma_same_holder,
    lemma_same_tenure, lemma_update_wf, monopolized_by, of_color, place_wf, Board,
};
use crate::places::{BoardColor, BoardPlace, PlaceModel};
use crate::sums::{
    first_true, lemma_first_true, lemma_first_true_at, lemma_first_true_none, lemma_total_bounds,
    lemma_total_update, lemma_total_zero, total,
};

verus! {

/// One way of turning a holding into cash.
#[derive(Clone, Copy, Debug, PartialEq, Eq, Structural)]
pub enum Liquidation {
    /// Mortgages the place at this position.
    Mortgage(usize),
    /// Sells one house of the place at this position.
    SellHouse(usize),
}

/// Whether the place at `i` is an unmortgaged place of `p` outside the estate
/// colors that `p` holds whole.
pub open spec fn loose(b: Seq<PlaceModel>, i: int, p: usize) -> bool {
    0 <= i < b.len() && b[i].owner == Some(p) && !b[i].mortgaged && !held_whole(b, b[i].color, p)
}

/// Whether the place at `i` has the color `color` and is not mortgaged.
pub open spec fn unmortgaged_at(b: Seq<PlaceModel>, i: int, color: BoardColor) -> bool {
    of_color(b, i, color) && !b[i].mortgaged
}

/// Whether `p` holds the color `color` whole, without a house on it and with
/// a place of it that is not mortgaged.
pub open spec fn idle_color(b: Seq<PlaceModel>, color: BoardColor, p: usize) -> bool {
    held_whole(b, color, p) && !has_houses(b, color) && exists|i: int| unmortgaged_at(b, i, color)
}

/// Whether `p` holds the color `color` whole, with houses on it.
pub open spec fn built_color(b: Seq<PlaceModel>, color: BoardColor, p: usize) -> bool {
    held_whole(b, color, p) && has_houses(b, color)
}

/// For each position, whether the place there is loose.
pub open spec fn loose_mask(b: Seq<PlaceModel>, p: usize) -> Seq<bool> {
    Seq::new(b.len(), |i: int| loose(b, i, p))
}

/// For each estate color, whether `p` holds it whole without a house and with
/// a place left to mortgage.
pub open spec fn idle_mask(b: Seq<PlaceModel>, p: usize) -> Seq<bool> {
    Seq::new(8, |k: int| idle_color(b, BoardColor::estate_colors()[k], p))
}

/// For each estate color, whether `p` holds it whole with houses.
pub open spec fn built_mask(b: Seq<PlaceModel>, p: usize) -> Seq<bool> {
    Seq::new(8, |k: int| built_color(b, BoardColor::estate_colors()[k], p))
}

/// For each position, whether the place there has the color `color` and is
/// not mortgaged.
pub open spec fn unmortgaged_mask(b: Seq<PlaceModel>, color: BoardColor) -> Seq<bool> {
    Seq::new(b.len(), |i: int| b[i].color == color && !b[i].mortgaged)
}

/// The houses on each place of the board, place by place.
pub open spec fn houses_of(b: Seq<PlaceModel>) -> Seq<u8> {
    Seq::new(b.len(), |i: int| b[i].house_count() as u8)
}

/// The most houses that `counts` gives to one of the first `n` places of the
/// color `color`; none where no place has that color.
pub open spec fn most_houses(counts: Seq<u8>, b: Seq<PlaceModel>, color: BoardColor, n: int) -> int
    decreases n,
{
    if n <= 0 {
        0
    } else {
        let before = most_houses(counts, b, color, n - 1);
        if b[n - 1].color == color && counts[n - 1] > before {
            counts[n - 1] as int
        } else {
            before
        }
    }
}

/// The rank of the place at `i` among the places of its color that have the
/// most houses: the lowest rank is sold from first.
///
/// The ranks are those of a list of the places of the color that starts in
/// the order of the board and is sorted anew by houses, the fullest first,
/// before every sale, equal places never changing their order; `start` holds
/// the houses that stood on each place when the selling began. As long as the
/// fullest places have as many houses as the fullest had at the start, they
/// rank in the order of the board. One house lower, those that were the
/// fullest at the start come first, the last of them first, and the others
/// follow in the order of the board. Another house lower it is the others
/// that come first, the last of them first; and so on in turns.
pub open spec fn sale_rank(start: Seq<u8>, b: Seq<PlaceModel>, color: BoardColor, i: int) -> int {
    let top = most_houses(start, b, color, b.len() as int);
    let level = top - most_houses(houses_of(b), b, color, b.len() as int);
    if level <= 0 {
        i
    } else if (level % 2 == 1) == (start[i] == top) {
        -i
    } else {
        b.len() + i
    }
}

/// The position among the first `n` of the place of the color `color` from
/// which a house is sold next: of those with the most houses, the one that
/// ranks lowest; -1 where none of them is among the first `n`.
pub open spec fn fullest(start: Seq<u8>, b: Seq<PlaceModel>, color: BoardColor, n: int) -> int
    decreases n,
{
    if n <= 0 {
        -1
    } else {
        let before = fullest(start, b, color, n - 1);
        if b[n - 1].color == color && b[n - 1].house_count() == most_houses(
            houses_of(b),
            b,
            color,
            b.len() as int,
        ) && (before < 0 || sale_rank(start, b, color, n - 1) < sale_rank(
            start,
            b,
            color,
            before,
        )) {
            n - 1
        } else {
            before
        }
    }
}

/// What `most_houses` finds: no place of the color has more, and one of them
/// has as many.
pub proof fn lemma_most_houses(counts: Seq<u8>, b: Seq<PlaceModel>, color: BoardColor, n: int)
    requires
        0 <= n <= b.len(),
        counts.len() == b.len(),
    ensures
        0 <= most_houses(counts, b, color, n),
        forall|j: int|
            0 <= j < n && b[j].color == color ==> counts[j] <= most_houses(counts, b, color, n),
        (exists|j: int| 0 <= j < n && b[j].color == color) ==> exists|j: int|
            0 <= j < n && b[j].color == color && counts[j] == most_houses(counts, b, color, n),
    decreases n,
{
    if n > 0 {
        lemma_most_houses(counts, b, color, n - 1);
        let before = most_houses(counts, b, color, n - 1);
        if b[n - 1].color == color && counts[n - 1] > before {
            assert(counts[n - 1] == most_houses(counts, b, color, n));
        } else if exists|j: int| 0 <= j < n && b[j].color == color {
            let j = choose|j: int| 0 <= j < n && b[j].color == color;
            if j == n - 1 {
                if exists|k: int| 0 <= k < n - 1 && b[k].color == color {
                    let k = choose|k: int|
                        0 <= k < n - 1 && b[k].color == color && counts[k] == before;
                    assert(counts[k] == most_houses(counts, b, color, n));
                } else {
                    lemma_most_houses_none(counts, b, color, n - 1);
                    assert(counts[n - 1] == most_houses(counts, b, color, n));
                }
            } else {
                let k = choose|k: int| 0 <= k < n - 1 && b[k].color == color && counts[k] == before;
                assert(counts[k] == most_houses(counts, b, color, n));
            }
        }
    }
}

/// Where no place has the color, `most_houses` finds no house.
pub proof fn lemma_most_houses_none(counts: Seq<u8>, b: Seq<PlaceModel>, color: BoardColor, n: int)
    requires
        0 <= n <= b.len(),
        forall|j: int| 0 <= j < n ==> b[j].color != color,
    ensures
        most_houses(counts, b, color, n) == 0,
    decreases n,
{
    if n > 0 {
        lemma_most_houses_none(counts, b, color, n - 1);
    }
}

/// What `fullest` finds: a place of the color with the most houses, which no
/// other such place outranks.
pub proof fn lemma_fullest(start: Seq<u8>, b: Seq<PlaceModel>, color: BoardColor, n: int)
    requires
        0 <= n <= b.len(),
    ensures
        -1 <= fullest(start, b, color, n) < n,
        fullest(start, b, color, n) >= 0 ==> b[fullest(start, b, color, n)].color == color
            && b[fullest(start, b, color, n)].house_count() == most_houses(
            houses_of(b),
            b,
            color,
            b.len() as int,
        ),
        forall|j: int|
            0 <= j < n && b[j].color == color && b[j].house_count() == most_houses(
                houses_of(b),
                b,
                color,
                b.len() as int,
            ) ==> fullest(start, b, color, n) >= 0 && sale_rank(
                start,
                b,
                color,
                fullest(start, b, color, n),
            ) <= sale_rank(start, b, color, j),
    decreases n,
{
    if n > 0 {
        lemma_fullest(start, b, color, n - 1);
    }
}

/// Two places do not rank alike.
pub proof fn lemma_sale_rank(start: Seq<u8>, b: Seq<PlaceModel>, color: BoardColor, i: int, j: int)
    requires
        0 <= i < b.len(),
        0 <= j < b.len(),
        sale_rank(start, b, color, i) == sale_rank(start, b, color, j),
    ensures
        i == j,
{
}

/// What the player `p` turns into cash next, if anything is left: the hurt is
/// the least first.
///
/// First comes the first loose place, which is mortgaged: a place outside the
/// estate colors that `p` holds whole. When none is loose, the first color
/// that `p` holds whole without a house is mortgaged place by place, in the
/// order of the board. When no such color has a place left to mortgage, a
/// house is sold in the first color that `p` holds whole with houses: from the
/// place with the most houses, and where several have as many, from the one of
/// them that ranks lowest by `sale_rank`; `start` holds the houses that stood
/// on each place when the raising began. A color that has lost its last house
/// is thereby the one that is mortgaged next.
pub open spec fn next_liquidation(start: Seq<u8>, b: Seq<PlaceModel>, p: usize) -> Option<
    Liquidation,
> {
    let first_loose = first_true(loose_mask(b, p));
    let idle = first_true(idle_mask(b, p));
    let built = first_true(built_mask(b, p));
    if first_loose >= 0 {
        Some(Liquidation::Mortgage(first_loose as usize))
    } else if idle >= 0 {
        Some(
            Liquidation::Mortgage(
                first_true(unmortgaged_mask(b, BoardColor::estate_colors()[idle])) as usize,
            ),
        )
    } else if built >= 0 {
        Some(
            Liquidation::SellHouse(
                fullest(start, b, BoardColor::estate_colors()[built], b.len() as int) as usize,
            ),
        )
    } else {
        None
    }
}

/// The first loose place is mortgaged first.
pub proof fn lemma_next_is_loose(start: Seq<u8>, b: Seq<PlaceModel>, p: usize, i: int)
    requires
        loose(b, i, p),
        forall|j: int| 0 <= j < i ==> !loose(b, j, p),
    ensures
        next_liquidation(start, b, p) == Some(Liquidation::Mortgage(i as usize)),
{
    lemma_first_true_at(loose_mask(b, p), i);
}

/// When no place is loose, the first unmortgaged place of the first color
/// that `p` holds whole without a house, and not yet mortgaged throughout, is
/// mortgaged.
pub proof fn lemma_next_is_idle(start: Seq<u8>, b: Seq<PlaceModel>, p: usize, k: int, i: int)
    requires
        forall|j: int| 0 <= j < b.len() ==> !loose(b, j, p),
        0 <= k < 8,
        idle_color(b, BoardColor::estate_colors()[k], p),
        forall|h: int| 0 <= h < k ==> !idle_color(b, #[trigger] BoardColor::estate_colors()[h], p),
        unmortgaged_at(b, i, BoardColor::estate_colors()[k]),
        forall|j: int| 0 <= j < i ==> !unmortgaged_at(b, j, BoardColor::estate_colors()[k]),
    ensures
        next_liquidation(start, b, p) == Some(Liquidation::Mortgage(i as usize)),
{
    lemma_first_true_none(loose_mask(b, p));
    lemma_first_true_at(idle_mask(b, p), k);
    let color = BoardColor::estate_colors()[k];
    assert forall|j: int| 0 <= j < i implies !unmortgaged_mask(b, color)[j] by {
        assert(!unmortgaged_at(b, j, color));
    }
    lemma_first_true_at(unmortgaged_mask(b, color), i);
}

/// When no place is loose and no houseless color of `p` has a place left to
/// mortgage, a house is sold in the first color that `p` holds whole with
/// houses: on the place that no place of the color exceeds and that no other
/// such place outranks.
pub proof fn lemma_next_is_sale(start: Seq<u8>, b: Seq<PlaceModel>, p: usize, k: int, i: int)
    requires
        forall|j: int| 0 <= j < b.len() ==> !loose(b, j, p),
        0 <= k < 8,
        built_color(b, BoardColor::estate_colors()[k], p),
        forall|h: int| 0 <= h < 8 ==> !idle_color(b, #[trigger] BoardColor::estate_colors()[h], p),
        forall|h: int| 0 <= h < k ==> !built_color(b, #[trigger] BoardColor::estate_colors()[h], p),
        of_color(b, i, BoardColor::estate_colors()[k]),
        forall|j: int|
            of_color(b, j, BoardColor::estate_colors()[k]) ==> b[j].house_count()
                <= b[i].house_count(),
        forall|j: int|
            of_color(b, j, BoardColor::estate_colors()[k]) && b[j].house_count()
                == b[i].house_count() ==> sale_rank(start, b, BoardColor::estate_colors()[k], i)
                <= sale_rank(start, b, BoardColor::estate_colors()[k], j),
        forall|j: int| 0 <= j < b.len() ==> (#[trigger] b[j]).house_count() <= 255,
    ensures
        next_liquidation(start, b, p) == Some(Liquidation::SellHouse(i as usize)),
{
    let color = BoardColor::estate_colors()[k];
    lemma_first_true_none(loose_mask(b, p));
    lemma_first_true_none(idle_mask(b, p));
    lemma_first_true_at(built_mask(b, p), k);
    lemma_fullest(start, b, color, b.len() as int);
    lemma_top(b, color, i);
    let found = fullest(start, b, color, b.len() as int);
    assert(of_color(b, found, color));
    lemma_sale_rank(start, b, color, i, found);
}

/// A place of a color that no place of the color exceeds has the most houses
/// of the color.
pub proof fn lemma_top(b: Seq<PlaceModel>, color: BoardColor, i: int)
    requires
        of_color(b, i, color),
        forall|j: int| of_color(b, j, color) ==> b[j].house_count() <= b[i].house_count(),
        forall|j: int| 0 <= j < b.len() ==> (#[trigger] b[j]).house_count() <= 255,
    ensures
        b[i].house_count() == most_houses(houses_of(b), b, color, b.len() as int),
{
    let counts = houses_of(b);
    lemma_most_houses(counts, b, color, b.len() as int);
    let j = choose|j: int|
        0 <= j < b.len() && b[j].color == color && counts[j] == most_houses(
            counts,
            b,
            color,
            b.len() as int,
        );
    assert(of_color(b, j, color));
    assert(counts[i] == b[i].house_count());
    assert(counts[j] == b[j].house_count());
}

/// When no place is loose and `p` holds no color whole with a house or with
/// a place left to mortgage, nothing is left to liquidate.
pub proof fn lemma_next_is_spent(start: Seq<u8>, b: Seq<PlaceModel>, p: usize)
    requires
        forall|j: int| 0 <= j < b.len() ==> !loose(b, j, p),
        forall|h: int| 0 <= h < 8 ==> !idle_color(b, #[trigger] BoardColor::estate_colors()[h], p),
        forall|h: int| 0 <= h < 8 ==> !built_color(b, #[trigger] BoardColor::estate_colors()[h], p),
    ensures
        next_liquidation(start, b, p) is None,
{
    lemma_first_true_none(loose_mask(b, p));
    lemma_first_true_none(idle_mask(b, p));
    lemma_first_true_none(built_mask(b, p));
}

/// The board after a liquidation.
pub open spec fn liquidate(b: Seq<PlaceModel>, step: Liquidation) -> Seq<PlaceModel> {
    match step {
        Liquidation::Mortgage(i) => b.update(i as int, PlaceModel { mortgaged: true, ..b[i as int] }),
        Liquidation::SellHouse(i) => b.update(
            i as int,
            PlaceModel { houses: Some((b[i as int].house_count() - 1) as u8), ..b[i as int] },
        ),
    }
}

/// The cash that a liquidation brings: half the price of what is given up.
pub open spec fn proceeds(b: Seq<PlaceModel>, step: Liquidation) -> nat {
    match step {
        Liquidation::Mortgage(i) => b[i as int].mortgage_value(),
        Liquidation::SellHouse(i) => b[i as int].house_resale(),
    }
}

/// The number of liquidations that the place `m` still allows to `p`.
pub open spec fn liquid_steps(m: PlaceModel, p: usize) -> int {
    if m.owner == Some(p) && !m.mortgaged {
        1 + m.house_count() as int
    } else {
        0
    }
}

/// The cash that `p` can still get out of the place `m`: its mortgage value
/// and half the price of its houses, unless it is mortgaged already.
pub open spec fn liquid_worth(m: PlaceModel, p: usize) -> int {
    if m.owner == Some(p) && !m.mortgaged {
        (m.mortgage_value() + m.house_equity()) as int
    } else {
        0
    }
}

/// The number of liquidations that the board still allows to `p`.
pub open spec fn liquid_assets(b: Seq<PlaceModel>, p: usize) -> int {
    total(Seq::new(b.len(), |i: int| liquid_steps(b[i], p)))
}

/// The cash that `p` can still raise from the board.
pub open spec fn liquid_value(b: Seq<PlaceModel>, p: usize) -> int {
    total(Seq::new(b.len(), |i: int| liquid_worth(b[i], p)))
}

/// What a step found by `next_liquidation` is sure of.
pub proof fn lemma_next_liquidation(start: Seq<u8>, b: Seq<PlaceModel>, p: usize)
    requires
        board_wf(b),
        houses_valid(b),
    ensures
        match next_liquidation(start, b, p) {
            Some(Liquidation::Mortgage(i)) => {
                &&& i < 40
                &&& b[i as int].owner == Some(p)
                &&& !b[i as int].mortgaged
                &&& b[i as int].is_property()
                &&& !has_houses(b, b[i as int].color)
            },
            Some(Liquidation::SellHouse(i)) => {
                &&& i < 40
                &&& b[i as int].owner == Some(p)
                &&& !b[i as int].mortgaged
                &&& b[i as int].is_estate()
                &&& held_whole(b, b[i as int].color, p)
                &&& !any_mortgaged(b, b[i as int].color)
                &&& b[i as int].house_count() > 0
                &&& forall|j: int|
                    of_color(b, j, b[i as int].color) ==> b[j].house_count()
                        <= b[i as int].house_count()
            },
            None => forall|i: int| 0 <= i < 40 && b[i].owner == Some(p) ==> b[i].mortgaged,
        },
{
    let colors = BoardColor::estate_colors();
    let first_loose = first_true(loose_mask(b, p));
    let idle = first_true(idle_mask(b, p));
    let built = first_true(built_mask(b, p));
    lemma_first_true(loose_mask(b, p));
    lemma_first_true(idle_mask(b, p));
    lemma_first_true(built_mask(b, p));
    if first_loose >= 0 {
        let i = first_loose;
        let c = b[i].color;
        assert(loose(b, i, p));
        lemma_place_shape(b, i);
        if has_houses(b, c) {
            let j = choose|j: int| of_color(b, j, c) && b[j].house_count() > 0;
            lemma_place_shape(b, j);
            assert(color_valid(b, c));
            let q = choose|q: usize| monopolized_by(b, c, q);
            assert(of_color(b, i, c));
            assert(false);
        }
    } else if idle >= 0 {
        let c = colors[idle];
        assert(idle_color(b, c, p));
        lemma_first_true(unmortgaged_mask(b, c));
        let j = choose|j: int| unmortgaged_at(b, j, c);
        assert(unmortgaged_mask(b, c)[j]);
        let i = first_true(unmortgaged_mask(b, c));
        assert(unmortgaged_at(b, i, c));
        lemma_place_shape(b, i);
    } else if built >= 0 {
        let c = colors[built];
        assert(built_color(b, c, p));
        assert(color_valid(b, c));
        lemma_fullest(start, b, c, 40);
        lemma_most_houses(houses_of(b), b, c, 40);
        let j = choose|j: int| of_color(b, j, c) && b[j].house_count() > 0;
        lemma_place_shape(b, j);
        let top = choose|j: int|
            0 <= j < 40 && b[j].color == c && houses_of(b)[j] == most_houses(
                houses_of(b),
                b,
                c,
                40,
            );
        lemma_place_shape(b, top);
        let i = fullest(start, b, c, 40);
        assert(of_color(b, i, c));
        lemma_place_shape(b, i);
        assert forall|j: int| of_color(b, j, c) implies b[j].house_count()
            <= b[i].house_count() by {
            lemma_place_shape(b, j);
        }
    } else {
        assert forall|i: int| 0 <= i < 40 && b[i].owner == Some(p) implies b[i].mortgaged by {
            if !b[i].mortgaged {
                assert(!loose_mask(b, p)[i]);
                let c = b[i].color;
                assert(held_whole(b, c, p));
                assert(unmortgaged_at(b, i, c));
                lemma_estate_colors(c);
                let k = choose|k: int| 0 <= k < 8 && colors[k] == c;
                assert(idle_mask(b, p)[k] || built_mask(b, p)[k]);
                assert(false);
            }
        }
    }
}

/// How the two measures of what `p` can still liquidate change when the place
/// at `i` is replaced.
pub proof fn lemma_liquid_update(b: Seq<PlaceModel>, p: usize, i: int, m: PlaceModel)
    requires
        0 <= i < b.len(),
    ensures
        liquid_assets(b.update(i, m), p) == liquid_assets(b, p) - liquid_steps(b[i], p)
            + liquid_steps(m, p),
        liquid_value(b.update(i, m), p) == liquid_value(b, p) - liquid_worth(b[i], p)
            + liquid_worth(m, p),
{
    let b2 = b.update(i, m);
    let steps = Seq::new(b.len(), |j: int| liquid_steps(b[j], p));
    let steps2 = Seq::new(b2.len(), |j: int| liquid_steps(b2[j], p));
    assert(steps2 =~= steps.update(i, liquid_steps(m, p)));
    lemma_total_update(steps, i, liquid_steps(m, p));
    let worths = Seq::new(b.len(), |j: int| liquid_worth(b[j], p));
    let worths2 = Seq::new(b2.len(), |j: int| liquid_worth(b2[j], p));
    assert(worths2 =~= worths.update(i, liquid_worth(m, p)));
    lemma_total_update(worths, i, liquid_worth(m, p));
}

/// Neither measure of what `p` can still liquidate is negative, and nothing is
/// left to raise when every place of `p` is mortgaged.
pub proof fn lemma_liquid_bounds(b: Seq<PlaceModel>, p: usize)
    ensures
        liquid_assets(b, p) >= 0,
        liquid_value(b, p) >= 0,
        (forall|i: int| 0 <= i < b.len() && b[i].owner == Some(p) ==> b[i].mortgaged)
            ==> liquid_value(b, p) == 0,
{
    let steps = Seq::new(b.len(), |j: int| liquid_steps(b[j], p));
    lemma_total_zero(steps);
    let worths = Seq::new(b.len(), |j: int| liquid_worth(b[j], p));
    assert forall|j: int| 0 <= j < worths.len() implies 0 <= #[trigger] worths[j] by {

    }
    lemma_total_zero(worths);
    if forall|i: int| 0 <= i < b.len() && b[i].owner == Some(p) ==> b[i].mortgaged {
        assert forall|j: int| 0 <= j < worths.len() implies #[trigger] worths[j] == 0 by {}
    }
}

/// No player can raise more than $28,000 from a board: $700 from each place.
pub proof fn lemma_liquid_value_bound(b: Seq<PlaceModel>, p: usize)
    requires
        board_wf(b),
    ensures
        0 <= liquid_value(b, p) <= 28_000,
{
    let worths = Seq::new(b.len(), |j: int| liquid_worth(b[j], p));
    assert forall|j: int| 0 <= j < worths.len() implies 0 <= #[trigger] worths[j] <= 700 by {
        lemma_place_shape(b, j);
        let h = b[j].house_count() as int;
        let r = b[j].house_resale() as int;
        assert(0 <= h * r <= 500) by (nonlinear_arith)
            requires
                0 <= h <= 5,
                0 <= r <= 100,
        ;
    }
    lemma_total_bounds(worths, 0, 700);
}

/// Whether `b2` is what is left of `b` after `p` gave up holdings: every
/// place has the owner that it had, the places of the others are as they
/// were, no mortgage has been lifted and no house has been added.
pub open spec fn given_up(b: Seq<PlaceModel>, b2: Seq<PlaceModel>, p: usize) -> bool {
    &&& b2.len() == b.len()
    &&& forall|j: int| 0 <= j < b.len() ==> (#[trigger] b2[j]).owner == b[j].owner
    &&& forall|j: int| 0 <= j < b.len() && b[j].owner != Some(p) ==> #[trigger] b2[j] == b[j]
    &&& forall|j: int| 0 <= j < b.len() && b[j].mortgaged ==> (#[trigger] b2[j]).mortgaged
    &&& forall|j: int|
        0 <= j < b.len() ==> (#[trigger] b2[j]).house_count() <= b[j].house_count()
}

/// What the step found by `next_liquidation` does: the board stays a board
/// that obeys the rule of building, every place keeps its owner, `p` has one
/// liquidation less to make, and the cash that the step brings is what the
/// holdings of `p` lose in worth.
pub proof fn lemma_liquidation_step(start: Seq<u8>, b: Seq<PlaceModel>, p: usize)
    requires
        board_wf(b),
        houses_valid(b),
        next_liquidation(start, b, p) is Some,
    ensures
        ({
            let step = next_liquidation(start, b, p)->0;
            let b2 = liquidate(b, step);
            &&& board_wf(b2)
            &&& houses_valid(b2)
            &&& forall|j: int| 0 <= j < 40 ==> (#[trigger] b2[j]).owner == b[j].owner
            &&& given_up(b, b2, p)
            &&& 0 <= liquid_assets(b2, p) < liquid_assets(b, p)
            &&& liquid_value(b2, p) + proceeds(b, step) == liquid_value(b, p)
        }),
{
    let step = next_liquidation(start, b, p)->0;
    let b2 = liquidate(b, step);
    lemma_next_liquidation(start, b, p);
    lemma_liquid_bounds(b2, p);
    match step {
        Liquidation::Mortgage(at) => {
            let i = at as int;
            let c = b[i].color;
            let m = PlaceModel { mortgaged: true, ..b[i] };
            assert(place_wf(b[i], i));
            lemma_update_wf(b, i, m);
            lemma_liquid_update(b, p, i, m);
            assert(b[i].house_count() == 0) by {
                assert(of_color(b, i, c));
            }
            assert forall|color: BoardColor| color.is_estate() implies #[trigger] color_valid(
                b2,
                color,
            ) by {
                assert(color_valid(b, color));
                if color == c {
                    assert forall|j: int| of_color(b2, j, c) implies b2[j].house_count() == 0 by {
                        assert(of_color(b, j, c));
                    }
                } else {
                    lemma_same_color(b, b2, color);
                }
            }
        },
        Liquidation::SellHouse(at) => {
            let i = at as int;
            let c = b[i].color;
            let m = PlaceModel { houses: Some((b[i].house_count() - 1) as u8), ..b[i] };
            assert(place_wf(b[i], i));
            lemma_place_shape(b, i);
            lemma_update_wf(b, i, m);
            lemma_liquid_update(b, p, i, m);
            let h = b[i].house_count() as int;
            let r = b[i].house_resale() as int;
            assert((h - 1) * r + r == h * r) by (nonlinear_arith);
            assert(m.house_count() == h - 1);
            assert(m.house_resale() == r);
            assert(b[i].house_equity() == h * r);
            assert(m.house_equity() == (h - 1) * r) by {
                if h - 1 == 0 {
                    assert((h - 1) * r == 0) by (nonlinear_arith)
                        requires
                            h - 1 == 0,
                    ;
                }
            }
            assert(liquid_worth(m, p) + r == liquid_worth(b[i], p));
            assert forall|color: BoardColor| color.is_estate() implies #[trigger] color_valid(
                b2,
                color,
            ) by {
                assert(color_valid(b, color));
                if color == c {
                    lemma_same_tenure(b, b2, c);
                    assert(monopolized_by(b2, c, p));
                    assert forall|j: int, k: int|
                        of_color(b2, j, c) && of_color(b2, k, c) implies b2[j].house_count()
                        <= b2[k].house_count() + 1 by {
                        assert(of_color(b, j, c) && of_color(b, k, c));
                    }
                } else {
                    lemma_same_color(b, b2, color);
                }
            }
        },
    }
}

/// How an attempt to raise money ends: the board and the cash that are left,
/// and whether the debt was paid out of the cash.
pub struct Raised {
    pub board: Seq<PlaceModel>,
    pub money: int,
    pub paid: bool,
}

/// How the attempt of the player `p` to pay `debt` goes on from the board
/// `b`; `start` holds the houses that stood on each place when it began.
///
/// With enough cash the debt is paid and nothing is touched. Otherwise one
/// liquidation is made, the one that `next_liquidation` names, and the
/// attempt goes on; it fails when nothing is left to liquidate.
pub open spec fn raise_from(
    start: Seq<u8>,
    b: Seq<PlaceModel>,
    p: usize,
    money: int,
    debt: int,
) -> Raised
    decreases liquid_assets(b, p),
    when board_wf(b) && houses_valid(b)
{
    if money >= debt {
        Raised { board: b, money: money - debt, paid: true }
    } else {
        match next_liquidation(start, b, p) {
            None => Raised { board: b, money, paid: false },
            Some(step) => {
                proof {
                    lemma_liquidation_step(start, b, p);
                }
                raise_from(start, liquidate(b, step), p, money + proceeds(b, step), debt)
            },
        }
    }
}

/// How the attempt of the player `p` to pay `debt` ends.
pub open spec fn raise_outcome(b: Seq<PlaceModel>, p: usize, money: int, debt: int) -> Raised {
    raise_from(houses_of(b), b, p, money, debt)
}

/// The laws of raising money, from wherever the raising has got to.
pub proof fn lemma_raise_from_laws(
    start: Seq<u8>,
    b: Seq<PlaceModel>,
    p: usize,
    money: int,
    debt: int,
)
    requires
        board_wf(b),
        houses_valid(b),
        money >= 0,
    ensures
        ({
            let end = raise_from(start, b, p, money, debt);
            &&& board_wf(end.board)
            &&& houses_valid(end.board)
            &&& forall|j: int| 0 <= j < 40 ==> (#[trigger] end.board[j]).owner == b[j].owner
            &&& given_up(b, end.board, p)
            &&& end.money >= 0
            &&& end.paid <==> money + liquid_value(b, p) >= debt
            &&& end.paid ==> end.money == money + (liquid_value(b, p) - liquid_value(end.board, p))
                - debt
            &&& money >= debt ==> end.board == b
            &&& !end.paid ==> {
                &&& end.money == money + liquid_value(b, p)
                &&& liquid_value(end.board, p) == 0
                &&& forall|j: int|
                    0 <= j < 40 && end.board[j].owner == Some(p) ==> end.board[j].mortgaged
                        && end.board[j].house_count() == 0
            }
        }),
    decreases liquid_assets(b, p),
{
    lemma_liquid_bounds(b, p);
    if money >= debt {
    } else {
        lemma_next_liquidation(start, b, p);
        match next_liquidation(start, b, p) {
            None => {
                assert forall|j: int| 0 <= j < 40 && b[j].owner == Some(p) implies b[j].house_count()
                    == 0 by {
                    lemma_mortgaged_is_bare(b, j);
                }
            },
            Some(step) => {
                lemma_liquidation_step(start, b, p);
                lemma_raise_from_laws(
                    start,
                    liquidate(b, step),
                    p,
                    money + proceeds(b, step),
                    debt,
                );
                let mid = liquidate(b, step);
                let end = raise_from(start, b, p, money, debt);
                assert forall|j: int| 0 <= j < b.len() implies (#[trigger] end.board[j]).house_count()
                    <= b[j].house_count() by {
                    assert(mid[j].house_count() <= b[j].house_count());
                }
                assert forall|j: int| 0 <= j < b.len() && b[j].mortgaged implies (
                #[trigger] end.board[j]).mortgaged by {
                    assert(mid[j].mortgaged);
                }
                assert forall|j: int|
                    0 <= j < b.len() && b[j].owner != Some(p) implies #[trigger] end.board[j]
                    == b[j] by {
                    assert(mid[j] == b[j]);
                }
            },
        }
    }
}

/// The laws of raising money.
///
/// The board that is left is a board and obeys the rule of building, and
/// every place has kept its owner. The debt is paid exactly when the cash and
/// all that can be liquidated cover it; the cash that is left is then the cash
/// before, plus what was liquidated, minus the debt. When the debt is not
/// paid, everything has been liquidated: every place of `p` is mortgaged, and
/// the cash that is left is all that `p` could raise.
pub proof fn lemma_raise_laws(b: Seq<PlaceModel>, p: usize, money: int, debt: int)
    requires
        board_wf(b),
        houses_valid(b),
        money >= 0,
    ensures
        ({
            let end = raise_outcome(b, p, money, debt);
            &&& board_wf(end.board)
            &&& houses_valid(end.board)
            &&& forall|j: int| 0 <= j < 40 ==> (#[trigger] end.board[j]).owner == b[j].owner
            &&& given_up(b, end.board, p)
            &&& end.money >= 0
            &&& end.paid <==> money + liquid_value(b, p) >= debt
            &&& end.paid ==> end.money == money + (liquid_value(b, p) - liquid_value(end.board, p))
                - debt
            &&& money >= debt ==> end.board == b
            &&& !end.paid ==> {
                &&& end.money == money + liquid_value(b, p)
                &&& liquid_value(end.board, p) == 0
                &&& forall|j: int|
                    0 <= j < 40 && end.board[j].owner == Some(p) ==> end.board[j].mortgaged
                        && end.board[j].house_count() == 0
            }
        }),
{
    lemma_raise_from_laws(houses_of(b), b, p, money, debt);
}

/// Whether a house that stood on `b` is gone on `b2`.
pub open spec fn house_sold(b: Seq<PlaceModel>, b2: Seq<PlaceModel>) -> bool {
    exists|i: int| 0 <= i < b.len() && (#[trigger] b2[i]).house_count() < b[i].house_count()
}

/// Whether a place is mortgaged on `b2` that `p` held unmortgaged on `b`, in
/// an estate color that he holds whole.
pub open spec fn whole_color_mortgaged(b: Seq<PlaceModel>, b2: Seq<PlaceModel>, p: usize) -> bool {
    exists|i: int|
        0 <= i < b.len() && held_whole(b, b[i].color, p) && !b[i].mortgaged && (
        #[trigger] b2[i]).mortgaged
}

/// Whether `b2` is left of `b` by liquidations of `p` that hurt the least
/// first.
///
/// Where a house is gone, or a place is mortgaged of a color that `p` holds
/// whole, every place that was loose is mortgaged. Where a house is gone,
/// every place is mortgaged of the colors that `p` held whole without a
/// house. And no house stands on the color of a place that got mortgaged.
pub open spec fn least_hurt_first(b: Seq<PlaceModel>, b2: Seq<PlaceModel>, p: usize) -> bool {
    &&& house_sold(b, b2) || whole_color_mortgaged(b, b2, p) ==> forall|j: int| #[trigger]
        loose(b, j, p) ==> b2[j].mortgaged
    &&& house_sold(b, b2) ==> forall|j: int|
        0 <= j < b.len() && held_whole(b, b[j].color, p) && !has_houses(b, b[j].color) ==> (
        #[trigger] b2[j]).mortgaged
    &&& forall|j: int|
        0 <= j < b.len() && !b[j].mortgaged && (#[trigger] b2[j]).mortgaged ==> !has_houses(
            b2,
            b[j].color,
        )
}

/// A step does not change who holds which color whole, and the later steps
/// give up what is left after it.
proof fn lemma_step_holdings(start: Seq<u8>, b: Seq<PlaceModel>, p: usize)
    requires
        board_wf(b),
        houses_valid(b),
        next_liquidation(start, b, p) is Some,
    ensures
        ({
            let mid = liquidate(b, next_liquidation(start, b, p)->0);
            &&& forall|j: int| 0 <= j < 40 ==> (#[trigger] mid[j]).color == b[j].color
            &&& forall|color: BoardColor| #[trigger]
                held_whole(mid, color, p) == held_whole(b, color, p)
        }),
{
    let mid = liquidate(b, next_liquidation(start, b, p)->0);
    lemma_next_liquidation(start, b, p);
    lemma_liquidation_step(start, b, p);
    assert forall|j: int| 0 <= j < 40 implies (#[trigger] mid[j]).color == b[j].color by {
        lemma_place_layout(b, j);
        lemma_place_layout(mid, j);
    }
    assert forall|color: BoardColor| #[trigger]
        held_whole(mid, color, p) == held_whole(b, color, p) by {
        lemma_same_holder(b, mid, color);
    }
}

/// Raising money hurts the least first, from wherever the raising has got to.
pub proof fn lemma_raise_from_order(
    start: Seq<u8>,
    b: Seq<PlaceModel>,
    p: usize,
    money: int,
    debt: int,
)
    requires
        board_wf(b),
        houses_valid(b),
        money >= 0,
    ensures
        least_hurt_first(b, raise_from(start, b, p, money, debt).board, p),
    decreases liquid_assets(b, p),
{
    let end = raise_from(start, b, p, money, debt).board;
    lemma_raise_from_laws(start, b, p, money, debt);
    assert forall|j: int| 0 <= j < 40 && !b[j].mortgaged && (#[trigger] end[j]).mortgaged implies
        !has_houses(end, b[j].color) by {
        lemma_place_layout(b, j);
        lemma_place_layout(end, j);
        lemma_mortgaged_has_no_house(end, j);
    }
    if money < debt && next_liquidation(start, b, p) is Some {
        let step = next_liquidation(start, b, p)->0;
        let mid = liquidate(b, step);
        let first_loose = first_true(loose_mask(b, p));
        let idle = first_true(idle_mask(b, p));
        lemma_first_true(loose_mask(b, p));
        lemma_first_true(idle_mask(b, p));
        lemma_next_liquidation(start, b, p);
        lemma_liquidation_step(start, b, p);
        lemma_step_holdings(start, b, p);
        lemma_raise_from_laws(start, mid, p, money + proceeds(b, step), debt);
        lemma_raise_from_order(start, mid, p, money + proceeds(b, step), debt);
        assert(end == raise_from(start, mid, p, money + proceeds(b, step), debt).board);
        if house_sold(b, end) || whole_color_mortgaged(b, end, p) {
            assert forall|j: int| #[trigger] loose(b, j, p) implies end[j].mortgaged by {
                assert(loose_mask(b, p)[j]);
                let i = first_loose;
                assert(loose(b, i, p));
                assert(step == Liquidation::Mortgage(i as usize));
                if j == i {
                    assert(mid[j].mortgaged);
                } else {
                    assert(loose(mid, j, p));
                    if house_sold(b, end) {
                        let at = choose|at: int|
                            0 <= at < b.len() && (#[trigger] end[at]).house_count()
                                < b[at].house_count();
                        assert(end[at].house_count() < mid[at].house_count());
                        assert(house_sold(mid, end));
                    } else {
                        let at = choose|at: int|
                            0 <= at < b.len() && held_whole(b, b[at].color, p) && !b[at].mortgaged
                                && (#[trigger] end[at]).mortgaged;
                        assert(at != i);
                        assert(held_whole(mid, mid[at].color, p) && !mid[at].mortgaged
                            && end[at].mortgaged);
                        assert(whole_color_mortgaged(mid, end, p));
                    }
                }
            }
        }
        if house_sold(b, end) {
            assert forall|j: int|
                0 <= j < b.len() && held_whole(b, b[j].color, p) && !has_houses(
                    b,
                    b[j].color,
                ) implies (#[trigger] end[j]).mortgaged by {
                let c = b[j].color;
                match step {
                    Liquidation::Mortgage(i) => {
                        let at = choose|at: int|
                            0 <= at < b.len() && (#[trigger] end[at]).house_count()
                                < b[at].house_count();
                        assert(end[at].house_count() < mid[at].house_count());
                        assert(house_sold(mid, end));
                        assert(held_whole(mid, c, p));
                        if has_houses(mid, c) {
                            let h = choose|h: int| of_color(mid, h, c) && mid[h].house_count() > 0;
                            assert(of_color(b, h, c) && b[h].house_count() > 0);
                        }
                    },
                    Liquidation::SellHouse(i) => {
                        assert(first_loose < 0 && idle < 0);
                        lemma_estate_colors(c);
                        let k = choose|k: int| 0 <= k < 8 && BoardColor::estate_colors()[k] == c;
                        assert(!idle_mask(b, p)[k]);
                        assert(!unmortgaged_at(b, j, c));
                        assert(b[j].mortgaged);
                    },
                }
            }
        }
    } else {
        assert(end == b);
    }
}

/// Raising money hurts the least first.
///
/// A house is sold, or a place mortgaged of a color that the player holds
/// whole, only when every place that he held outside such colors is
/// mortgaged; a house is sold only when the colors that he held whole without
/// a house are mortgaged throughout; and a place is mortgaged only in a
/// color on which no house is left.
pub proof fn lemma_raise_order(b: Seq<PlaceModel>, p: usize, money: int, debt: int)
    requires
        board_wf(b),
        houses_valid(b),
        money >= 0,
    ensures
        least_hurt_first(b, raise_outcome(b, p, money, debt).board, p),
{
    lemma_raise_from_order(houses_of(b), b, p, money, debt);
}

/// Counts the houses on each place of the board.
pub fn house_counts(board: &Board) -> (counts: Vec<u8>)
    requires
        board.wf(),
    ensures
        counts@ == houses_of(board@),
{
    let mut counts: Vec<u8> = Vec::new();
    let mut i: usize = 0;
    while i < board.places.len()
        invariant
            board.wf(),
            i <= 40,
            counts@.len() == i,
            forall|j: int| 0 <= j < i ==> counts@[j] == board@[j].house_count(),
        decreases 40 - i,
    {
        let place = &board.places[i];
        assert(place.model() == board@[i as int]);
        proof {
            lemma_place_shape(board@, i as int);
        }
        counts.push(
            match place.get_num_houses() {
                Some(houses) => houses,
                None => 0,
            },
        );
        i += 1;
    }
    assert(counts@ =~= houses_of(board@));
    counts
}

/// Tells whether a house stands on some place of the color `color`.
pub fn color_has_houses(board: &Board, color: BoardColor) -> (yes: bool)
    requires
        board.wf(),
    ensures
        yes == has_houses(board@, color),
{
    let mut i: usize = 0;
    while i < board.places.len()
        invariant
            board.wf(),
            i <= 40,
            forall|j: int| 0 <= j < i ==> !(of_color(board@, j, color) && board@[j].house_count() > 0),
        decreases 40 - i,
    {
        let place = &board.places[i];
        assert(place.model() == board@[i as int]);
        if place.get_color() == color {
            if let Some(houses) = place.get_num_houses() {
                if houses > 0 {
                    assert(of_color(board@, i as int, color));
                    return true;
                }
            }
        }
        i += 1;
    }
    false
}

/// Tells whether some place of the color `color` is mortgaged.
pub fn color_has_mortgage(board: &Board, color: BoardColor) -> (yes: bool)
    requires
        board.wf(),
    ensures
        yes == any_mortgaged(board@, color),
{
    let mut i: usize = 0;
    while i < board.places.len()
        invariant
            board.wf(),
            i <= 40,
            forall|j: int| 0 <= j < i ==> !(of_color(board@, j, color) && board@[j].mortgaged),
        decreases 40 - i,
    {
        let place = &board.places[i];
        assert(place.model() == board@[i as int]);
        if place.get_color() == color && place.is_mortgaged() {
            assert(of_color(board@, i as int, color));
            return true;
        }
        i += 1;
    }
    false
}

/// Tells whether `player` holds the whole estate color `color`.
pub fn is_held_whole(board: &Board, color: BoardColor, player: usize) -> (yes: bool)
    requires
        board.wf(),
    ensures
        yes == held_whole(board@, color, player),
{
    let estate = color != BoardColor::Neutral && color != BoardColor::Railroad && color
        != BoardColor::Utilities;
    if !estate {
        return false;
    }
    match board.get_monopolizer(color) {
        Some(owner) => owner == player,
        None => false,
    }
}

/// Finds the first place of the color `color` that is not mortgaged.
pub fn first_unmortgaged(board: &Board, color: BoardColor) -> (found: Option<usize>)
    requires
        board.wf(),
    ensures
        match found {
            Some(i) => unmortgaged_at(board@, i as int, color) && forall|j: int|
                0 <= j < i ==> !unmortgaged_at(board@, j, color),
            None => forall|j: int| !unmortgaged_at(board@, j, color),
        },
{
    let mut i: usize = 0;
    while i < board.places.len()
        invariant
            board.wf(),
            i <= 40,
            forall|j: int| 0 <= j < i ==> !unmortgaged_at(board@, j, color),
        decreases 40 - i,
    {
        let place = &board.places[i];
        assert(place.model() == board@[i as int]);
        if place.get_color() == color && !place.is_mortgaged() {
            return Some(i);
        }
        i += 1;
    }
    None
}

/// Finds the first loose place of `player`.
pub fn first_loose(board: &Board, player: usize) -> (found: Option<usize>)
    requires
        board.wf(),
    ensures
        match found {
            Some(i) => loose(board@, i as int, player) && forall|j: int|
                0 <= j < i ==> !loose(board@, j, player),
            None => forall|j: int| !loose(board@, j, player),
        },
{
    let mut i: usize = 0;
    while i < board.places.len()
        invariant
            board.wf(),
            i <= 40,
            forall|j: int| 0 <= j < i ==> !loose(board@, j, player),
        decreases 40 - i,
    {
        let place = &board.places[i];
        assert(place.model() == board@[i as int]);
        let owned = match place.get_owner() {
            Some(owner) => owner == player,
            None => false,
        };
        if owned && !place.is_mortgaged() && !is_held_whole(board, place.get_color(), player) {
            return Some(i);
        }
        i += 1;
    }
    None
}

/// Finds the most houses that `counts` gives to one place of the color
/// `color`.
pub fn most_of_color(board: &Board, counts: &Vec<u8>, color: BoardColor) -> (most: u8)
    requires
        board.wf(),
        counts@.len() == 40,
    ensures
        most == most_houses(counts@, board@, color, 40),
{
    let mut most: u8 = 0;
    let mut i: usize = 0;
    while i < board.places.len()
        invariant
            board.wf(),
            counts@.len() == 40,
            i <= 40,
            most == most_houses(counts@, board@, color, i as int),
        decreases 40 - i,
    {
        let place = &board.places[i];
        assert(place.model() == board@[i as int]);
        if place.get_color() == color && counts[i] > most {
            most = counts[i];
        }
        i += 1;
    }
    most
}

/// Finds the place of the color `color` from which a house is sold next: of
/// those with the most houses, the one that ranks lowest by `sale_rank`;
/// `start` holds the houses that stood on each place when the selling began.
pub fn fullest_of_color(board: &Board, start: &Vec<u8>, color: BoardColor) -> (found: Option<
    usize,
>)
    requires
        board.wf(),
        start@.len() == 40,
    ensures
        match found {
            Some(i) => {
                &&& of_color(board@, i as int, color)
                &&& forall|j: int|
                    of_color(board@, j, color) ==> board@[j].house_count()
                        <= board@[i as int].house_count()
                &&& forall|j: int|
                    of_color(board@, j, color) && board@[j].house_count()
                        == board@[i as int].house_count() ==> sale_rank(
                        start@,
                        board@,
                        color,
                        i as int,
                    ) <= sale_rank(start@, board@, color, j)
            },
            None => forall|j: int| !of_color(board@, j, color),
        },
{
    let now = house_counts(board);
    let top = most_of_color(board, start, color);
    let most = most_of_color(board, &now, color);
    proof {
        lemma_most_houses(now@, board@, color, 40);
    }
    let mut found: Option<usize> = None;
    let mut lowest: i64 = 0;
    let mut i: usize = 0;
    while i < board.places.len()
        invariant
            board.wf(),
            start@.len() == 40,
            now@ == houses_of(board@),
            top == most_houses(start@, board@, color, 40),
            most == most_houses(now@, board@, color, 40),
            i <= 40,
            match found {
                Some(at) => {
                    &&& at < i
                    &&& of_color(board@, at as int, color)
                    &&& board@[at as int].house_count() == most
                    &&& lowest == sale_rank(start@, board@, color, at as int)
                    &&& forall|j: int|
                        0 <= j < i && of_color(board@, j, color) && board@[j].house_count()
                            == most ==> lowest <= sale_rank(start@, board@, color, j)
                },
                None => forall|j: int|
                    0 <= j < i ==> !(of_color(board@, j, color) && board@[j].house_count()
                        == most),
            },
        decreases 40 - i,
    {
        let place = &board.places[i];
        assert(place.model() == board@[i as int]);
        if place.get_color() == color && now[i] == most {
            let rank: i64 = if top <= most {
                i as i64
            } else if ((top - most) % 2 == 1) == (start[i] == top) {
                0 - (i as i64)
            } else {
                40 + i as i64
            };
            if found.is_none() || rank < lowest {
                found = Some(i);
                lowest = rank;
            }
        }
        i += 1;
    }
    proof {
        if found is None {
            assert forall|j: int| !of_color(board@, j, color) by {
                if of_color(board@, j, color) {
                    let k = choose|k: int|
                        0 <= k < 40 && board@[k].color == color && now@[k] == most;
                    assert(of_color(board@, k, color));
                    assert(false);
                }
            }
        } else {
            assert forall|j: int| of_color(board@, j, color) implies board@[j].house_count()
                <= most by {
                assert(now@[j] == board@[j].house_count());
            }
        }
    }
    found
}

/// Whether the color `color` is one that `p` liquidates: one held whole with
/// houses if `built`, one held whole without a house and with a place left
/// to mortgage otherwise.
pub open spec fn liquid_color(b: Seq<PlaceModel>, color: BoardColor, p: usize, built: bool) -> bool {
    if built {
        built_color(b, color, p)
    } else {
        idle_color(b, color, p)
    }
}

/// Finds the number of the first estate color that `player` holds whole: with
/// houses if `built`, without a house and with a place left to mortgage
/// otherwise.
pub fn first_whole_color(board: &Board, player: usize, built: bool) -> (found: Option<usize>)
    requires
        board.wf(),
    ensures
        match found {
            Some(k) => {
                &&& k < 8
                &&& liquid_color(board@, BoardColor::estate_colors()[k as int], player, built)
                &&& forall|h: int|
                    0 <= h < k ==> !liquid_color(
                        board@,
                        #[trigger] BoardColor::estate_colors()[h],
                        player,
                        built,
                    )
            },
            None => forall|h: int|
                0 <= h < 8 ==> !liquid_color(
                    board@,
                    #[trigger] BoardColor::estate_colors()[h],
                    player,
                    built,
                ),
        },
{
    let colors = BoardColor::get_estate_colors();
    let mut k: usize = 0;
    while k < colors.len()
        invariant
            board.wf(),
            colors@ == BoardColor::estate_colors(),
            k <= 8,
            forall|h: int|
                0 <= h < k ==> !liquid_color(
                    board@,
                    #[trigger] BoardColor::estate_colors()[h],
                    player,
                    built,
                ),
        decreases 8 - k,
    {
        let color = colors[k];
        if is_held_whole(board, color, player) && color_has_houses(board, color) == built {
            if built {
                return Some(k);
            }
            let left = first_unmortgaged(board, color);
            if left.is_some() {
                assert(unmortgaged_at(board@, left.unwrap() as int, color));
                return Some(k);
            }
        }
        k += 1;
    }
    None
}

/// Finds what `player` turns into cash next, if anything is left; `start`
/// holds the houses that stood on each place when the raising began.
pub fn find_liquidation(board: &Board, start: &Vec<u8>, player: usize) -> (step: Option<
    Liquidation,
>)
    requires
        board.wf(),
        houses_valid(board@),
        start@.len() == 40,
    ensures
        step == next_liquidation(start@, board@, player),
{
    let colors = BoardColor::get_estate_colors();
    if let Some(i) = first_loose(board, player) {
        proof {
            lemma_next_is_loose(start@, board@, player, i as int);
        }
        return Some(Liquidation::Mortgage(i));
    }
    if let Some(k) = first_whole_color(board, player, false) {
        match first_unmortgaged(board, colors[k]) {
            Some(i) => {
                proof {
                    lemma_next_is_idle(start@, board@, player, k as int, i as int);
                }
                return Some(Liquidation::Mortgage(i));
            },
            None => {
                proof {
                    let at = choose|i: int| unmortgaged_at(board@, i, colors@[k as int]);
                    assert(unmortgaged_at(board@, at, colors@[k as int]));
                }
                return None;
            },
        }
    }
    if let Some(k) = first_whole_color(board, player, true) {
        match fullest_of_color(board, start, colors[k]) {
            Some(i) => {
                proof {
                    assert forall|j: int| 0 <= j < 40 implies (#[trigger] board@[j]).house_count()
                        <= 255 by {
                        lemma_place_shape(board@, j);
                    }
                    lemma_next_is_sale(start@, board@, player, k as int, i as int);
                }
                return Some(Liquidation::SellHouse(i));
            },
            None => {
                proof {
                    let at = choose|i: int| of_color(board@, i, colors@[k as int]);
                    assert(of_color(board@, at, colors@[k as int]));
                }
                return None;
            },
        }
    }
    proof {
        lemma_next_is_spent(start@, board@, player);
    }
    None
}

/// Makes one liquidation and returns the cash that it brings.
pub fn apply_liquidation(board: &mut Board, step: Liquidation) -> (gain: u32)
    requires
        old(board).wf(),
        match step {
            Liquidation::Mortgage(i) => i < 40 && old(board)@[i as int].is_property(),
            Liquidation::SellHouse(i) => i < 40 && old(board)@[i as int].is_estate() && old(board)@[i as int].house_count() > 0,
        },
    ensures
        final(board).wf(),
        final(board)@ == liquidate(old(board)@, step),
        gain == proceeds(old(board)@, step),
{
    match step {
        Liquidation::Mortgage(i) => board.set_mortgaged(i, true),
        Liquidation::SellHouse(i) => {
            proof {
                lemma_place_shape(board@, i as int);
            }
            assert(board.places@[i as int].model() == board@[i as int]);
            let houses = match board.places[i].get_num_houses() {
                Some(houses) => houses,
                None => 0,
            };
            let price = match board.places[i].get_price_of_house() {
                Some(price) => price,
                None => 0,
            };
            board.set_num_houses(i, houses - 1);
            price / 2
        },
    }
}

} // verus!
