use vstd::prelude::*;
use crate::board::{
    lemma_mortgaged_has_no_house, any_mortgaged, board_wf, color_valid, has_houses, houses_total, houses_valid,
    lemma_place_shape, lemma_same_color, lemma_same_tenure, lemma_update_wf, monopolized_by,
    of_color, place_wf, Board,
};
use crate::liquidation::{color_has_mortgage, house_counts, houses_of};
use crate::places::{BoardColor, BoardPlace, OwnablePlace, PlaceModel};
use crate::sums::{
    first_true, lemma_first_true, lemma_first_true_at, lemma_first_true_none, lemma_total_update,
    lemma_total_zero, total,
};

verus! {

/// One way of spending cash on a holding.
#[derive(Clone, Copy, Debug, PartialEq, Eq, Structural)]
pub enum Investment {
    /// Lifts the mortgage of the place at this position.
    Unmortgage(usize),
    /// Builds one house on the place at this position.
    BuildHouse(usize),
}

/// For each position, whether the place there is a mortgaged place of `p`, of
/// the color `color` where one is given.
pub open spec fn mortgaged_mask(b: Seq<PlaceModel>, p: usize, color: Option<BoardColor>) -> Seq<
    bool,
> {
    Seq::new(
        b.len(),
        |i: int|
            b[i].owner == Some(p) && b[i].mortgaged && (color matches Some(c) ==> b[i].color == c),
    )
}

/// Whether a house can still be built on some place of the color `color`.
pub open spec fn can_build(b: Seq<PlaceModel>, color: BoardColor) -> bool {
    exists|i: int| of_color(b, i, color) && b[i].house_count() < 5
}

/// Whether `p` holds the whole estate color `color` and can still spend on it:
/// a mortgage to lift, or a house to build.
pub open spec fn unfinished(b: Seq<PlaceModel>, color: BoardColor, p: usize) -> bool {
    color.is_estate() && monopolized_by(b, color, p) && (any_mortgaged(b, color) || can_build(
        b,
        color,
    ))
}

/// The houses that stand on the places of the color `color`.
pub open spec fn houses_built(b: Seq<PlaceModel>, color: BoardColor) -> nat {
    houses_total(b, color, b.len() as int)
}

/// Among the first `n` estate colors, the number of the unfinished color of
/// `p` with the most houses, the first of them where several have as many;
/// -1 where `p` has no unfinished color.
pub open spec fn leading_color(b: Seq<PlaceModel>, p: usize, n: int) -> int
    decreases n,
{
    if n <= 0 {
        -1
    } else {
        let before = leading_color(b, p, n - 1);
        let color = BoardColor::estate_colors()[n - 1];
        if unfinished(b, color, p) && (before < 0 || houses_built(b, color) > houses_built(
            b,
            BoardColor::estate_colors()[before],
        )) {
            n - 1
        } else {
            before
        }
    }
}

/// What `leading_color` finds is an unfinished color, and it finds one where
/// there is one.
pub proof fn lemma_leading_color(b: Seq<PlaceModel>, p: usize, n: int)
    requires
        0 <= n <= 8,
    ensures
        -1 <= leading_color(b, p, n) < n,
        leading_color(b, p, n) >= 0 ==> unfinished(
            b,
            BoardColor::estate_colors()[leading_color(b, p, n)],
            p,
        ),
        forall|k: int|
            0 <= k < n && unfinished(b, BoardColor::estate_colors()[k], p) ==> leading_color(
                b,
                p,
                n,
            ) >= 0,
    decreases n,
{
    if n > 0 {
        lemma_leading_color(b, p, n - 1);
    }
}

/// The fewest houses that `counts` gives to one of the first `n` places of
/// the color `color`; 256, more than any place can have, where no place has
/// that color.
pub open spec fn least_houses(counts: Seq<u8>, b: Seq<PlaceModel>, color: BoardColor, n: int) -> int
    decreases n,
{
    if n <= 0 {
        256
    } else {
        let before = least_houses(counts, b, color, n - 1);
        if b[n - 1].color == color && counts[n - 1] < before {
            counts[n - 1] as int
        } else {
            before
        }
    }
}

/// The rank of the place at `i` among the places of its color that have the
/// fewest houses: the lowest rank is built on first.
///
/// The ranks are those of a list of the places of the color that starts in
/// the order of the board and is sorted anew by houses, the emptiest first,
/// before every house is built, equal places never changing their order;
/// `start` holds the houses that stood on each place when the building began.
/// As long as the emptiest places have as few houses as the emptiest had at
/// the start, they rank in the order of the board. One house higher, those
/// that were the emptiest at the start come first, the last of them first,
/// and the others follow in the order of the board. Another house higher it
/// is the others that come first, the last of them first; and so on in turns.
pub open spec fn build_rank(start: Seq<u8>, b: Seq<PlaceModel>, color: BoardColor, i: int) -> int {
    let bottom = least_houses(start, b, color, b.len() as int);
    let level = least_houses(houses_of(b), b, color, b.len() as int) - bottom;
    if level <= 0 {
        i
    } else if (level % 2 == 1) == (start[i] == bottom) {
        -i
    } else {
        b.len() + i
    }
}

/// The position among the first `n` of the place of the color `color` on
/// which a house is built next: of those with the fewest houses, the one that
/// ranks lowest; -1 where none of them is among the first `n`.
pub open spec fn emptiest(start: Seq<u8>, b: Seq<PlaceModel>, color: BoardColor, n: int) -> int
    decreases n,
{
    if n <= 0 {
        -1
    } else {
        let before = emptiest(start, b, color, n - 1);
        if b[n - 1].color == color && b[n - 1].house_count() == least_houses(
            houses_of(b),
            b,
            color,
            b.len() as int,
        ) && (before < 0 || build_rank(start, b, color, n - 1) < build_rank(
            start,
            b,
            color,
            before,
        )) {
            n - 1
        } else {
            before
        }
    }
}

/// What `least_houses` finds: no place of the color has fewer, and one of
/// them has as few.
pub proof fn lemma_least_houses(counts: Seq<u8>, b: Seq<PlaceModel>, color: BoardColor, n: int)
    requires
        0 <= n <= b.len(),
        counts.len() == b.len(),
    ensures
        0 <= least_houses(counts, b, color, n) <= 256,
        forall|j: int|
            0 <= j < n && b[j].color == color ==> least_houses(counts, b, color, n) <= counts[j],
        (exists|j: int| 0 <= j < n && b[j].color == color) ==> exists|j: int|
            0 <= j < n && b[j].color == color && counts[j] == least_houses(counts, b, color, n),
    decreases n,
{
    if n > 0 {
        lemma_least_houses(counts, b, color, n - 1);
        let before = least_houses(counts, b, color, n - 1);
        if b[n - 1].color == color && counts[n - 1] < before {
            assert(counts[n - 1] == least_houses(counts, b, color, n));
        } else if exists|j: int| 0 <= j < n && b[j].color == color {
            let j = choose|j: int| 0 <= j < n && b[j].color == color;
            if exists|k: int| 0 <= k < n - 1 && b[k].color == color {
                let k = choose|k: int| 0 <= k < n - 1 && b[k].color == color && counts[k] == before;
                assert(counts[k] == least_houses(counts, b, color, n));
            } else {
                lemma_least_houses_none(counts, b, color, n - 1);
                assert(j == n - 1);
                assert(false);
            }
        }
    }
}

/// Where no place has the color, `least_houses` finds 256.
pub proof fn lemma_least_houses_none(counts: Seq<u8>, b: Seq<PlaceModel>, color: BoardColor, n: int)
    requires
        0 <= n <= b.len(),
        forall|j: int| 0 <= j < n ==> b[j].color != color,
    ensures
        least_houses(counts, b, color, n) == 256,
    decreases n,
{
    if n > 0 {
        lemma_least_houses_none(counts, b, color, n - 1);
    }
}

/// What `emptiest` finds: a place of the color with the fewest houses, which
/// no other such place outranks.
pub proof fn lemma_emptiest(start: Seq<u8>, b: Seq<PlaceModel>, color: BoardColor, n: int)
    requires
        0 <= n <= b.len(),
    ensures
        -1 <= emptiest(start, b, color, n) < n,
        emptiest(start, b, color, n) >= 0 ==> b[emptiest(start, b, color, n)].color == color
            && b[emptiest(start, b, color, n)].house_count() == least_houses(
            houses_of(b),
            b,
            color,
            b.len() as int,
        ),
        forall|j: int|
            0 <= j < n && b[j].color == color && b[j].house_count() == least_houses(
                houses_of(b),
                b,
                color,
                b.len() as int,
            ) ==> emptiest(start, b, color, n) >= 0 && build_rank(
                start,
                b,
                color,
                emptiest(start, b, color, n),
            ) <= build_rank(start, b, color, j),
    decreases n,
{
    if n > 0 {
        lemma_emptiest(start, b, color, n - 1);
    }
}

/// Two places do not rank alike.
pub proof fn lemma_build_rank(start: Seq<u8>, b: Seq<PlaceModel>, color: BoardColor, i: int, j: int)
    requires
        0 <= i < b.len(),
        0 <= j < b.len(),
        build_rank(start, b, color, i) == build_rank(start, b, color, j),
    ensures
        i == j,
{
}

/// A place of a color that no place of the color falls short of has the
/// fewest houses of the color.
pub proof fn lemma_bottom(b: Seq<PlaceModel>, color: BoardColor, i: int)
    requires
        of_color(b, i, color),
        forall|j: int| of_color(b, j, color) ==> b[i].house_count() <= b[j].house_count(),
        forall|j: int| 0 <= j < b.len() ==> (#[trigger] b[j]).house_count() <= 255,
    ensures
        b[i].house_count() == least_houses(houses_of(b), b, color, b.len() as int),
{
    let counts = houses_of(b);
    lemma_least_houses(counts, b, color, b.len() as int);
    let j = choose|j: int|
        0 <= j < b.len() && b[j].color == color && counts[j] == least_houses(
            counts,
            b,
            color,
            b.len() as int,
        );
    assert(of_color(b, j, color));
    assert(counts[i] == b[i].house_count());
    assert(counts[j] == b[j].house_count());
}

/// What the player `p` spends on next, if anything is left to spend on.
///
/// First comes the first mortgaged railroad, whose mortgage is lifted. Then
/// comes the unfinished color with the most houses, the first in the order of
/// the board where several have as many: the mortgage of its first mortgaged
/// place is lifted, and when none is mortgaged a house is built on the place
/// with the fewest houses, and where several have as few, on the one of them
/// that ranks lowest by `build_rank`; `start` holds the houses that stood on
/// each place when the investing began. When no color is unfinished, the
/// mortgage of the first mortgaged place is lifted.
pub open spec fn next_investment(start: Seq<u8>, b: Seq<PlaceModel>, p: usize) -> Option<
    Investment,
> {
    let railroad = first_true(mortgaged_mask(b, p, Some(BoardColor::Railroad)));
    let leading = leading_color(b, p, 8);
    let rest = first_true(mortgaged_mask(b, p, None));
    if railroad >= 0 {
        Some(Investment::Unmortgage(railroad as usize))
    } else if leading >= 0 {
        let color = BoardColor::estate_colors()[leading];
        let mortgaged = first_true(mortgaged_mask(b, p, Some(color)));
        if mortgaged >= 0 {
            Some(Investment::Unmortgage(mortgaged as usize))
        } else {
            Some(Investment::BuildHouse(emptiest(start, b, color, b.len() as int) as usize))
        }
    } else if rest >= 0 {
        Some(Investment::Unmortgage(rest as usize))
    } else {
        None
    }
}

/// The mortgage of the first mortgaged railroad is lifted first.
pub proof fn lemma_next_is_railroad(start: Seq<u8>, b: Seq<PlaceModel>, p: usize, i: int)
    requires
        mortgaged_at(b, p, Some(BoardColor::Railroad), i),
        forall|j: int| 0 <= j < i ==> !mortgaged_at(b, p, Some(BoardColor::Railroad), j),
    ensures
        next_investment(start, b, p) == Some(Investment::Unmortgage(i as usize)),
{
    lemma_first_mortgaged(b, p, Some(BoardColor::Railroad), i);
}

/// When `p` has no mortgaged railroad, he spends on his unfinished color
/// with the most houses, the first of them where several have as many:
/// on the mortgage of its first mortgaged place, if it has one.
pub proof fn lemma_next_is_release(start: Seq<u8>, b: Seq<PlaceModel>, p: usize, k: int, i: int)
    requires
        forall|j: int| !mortgaged_at(b, p, Some(BoardColor::Railroad), j),
        leads(b, p, k),
        mortgaged_at(b, p, Some(BoardColor::estate_colors()[k]), i),
        forall|j: int| 0 <= j < i ==> !mortgaged_at(b, p, Some(BoardColor::estate_colors()[k]), j),
    ensures
        next_investment(start, b, p) == Some(Investment::Unmortgage(i as usize)),
{
    lemma_first_mortgaged(b, p, Some(BoardColor::Railroad), -1);
    lemma_leads(b, p, k, 8);
    lemma_first_mortgaged(b, p, Some(BoardColor::estate_colors()[k]), i);
}

/// When `p` has no mortgaged railroad and his leading color has no mortgaged
/// place, he builds a house there: on the place that no place of the color
/// falls short of and that no other such place outranks.
pub proof fn lemma_next_is_house(start: Seq<u8>, b: Seq<PlaceModel>, p: usize, k: int, i: int)
    requires
        forall|j: int| !mortgaged_at(b, p, Some(BoardColor::Railroad), j),
        leads(b, p, k),
        !any_mortgaged(b, BoardColor::estate_colors()[k]),
        of_color(b, i, BoardColor::estate_colors()[k]),
        forall|j: int|
            of_color(b, j, BoardColor::estate_colors()[k]) ==> b[i].house_count()
                <= b[j].house_count(),
        forall|j: int|
            of_color(b, j, BoardColor::estate_colors()[k]) && b[j].house_count()
                == b[i].house_count() ==> build_rank(start, b, BoardColor::estate_colors()[k], i)
                <= build_rank(start, b, BoardColor::estate_colors()[k], j),
        forall|j: int| 0 <= j < b.len() ==> (#[trigger] b[j]).house_count() <= 255,
    ensures
        next_investment(start, b, p) == Some(Investment::BuildHouse(i as usize)),
{
    let color = BoardColor::estate_colors()[k];
    lemma_first_mortgaged(b, p, Some(BoardColor::Railroad), -1);
    lemma_leads(b, p, k, 8);
    assert forall|j: int| !mortgaged_at(b, p, Some(color), j) by {
        if mortgaged_at(b, p, Some(color), j) {
            assert(of_color(b, j, color));
        }
    }
    lemma_first_mortgaged(b, p, Some(color), -1);
    lemma_emptiest(start, b, color, b.len() as int);
    lemma_bottom(b, color, i);
    let found = emptiest(start, b, color, b.len() as int);
    assert(of_color(b, found, color));
    lemma_build_rank(start, b, color, i, found);
}

/// When `p` has no mortgaged railroad and no unfinished color, the mortgage
/// of his first mortgaged place is lifted.
pub proof fn lemma_next_is_rest(start: Seq<u8>, b: Seq<PlaceModel>, p: usize, i: int)
    requires
        forall|j: int| !mortgaged_at(b, p, Some(BoardColor::Railroad), j),
        forall|k: int| 0 <= k < 8 ==> !unfinished(b, #[trigger] BoardColor::estate_colors()[k], p),
        mortgaged_at(b, p, None, i),
        forall|j: int| 0 <= j < i ==> !mortgaged_at(b, p, None, j),
    ensures
        next_investment(start, b, p) == Some(Investment::Unmortgage(i as usize)),
{
    lemma_first_mortgaged(b, p, Some(BoardColor::Railroad), -1);
    lemma_leading_color(b, p, 8);
    lemma_first_mortgaged(b, p, None, i);
}

/// A player without a mortgaged place and without an unfinished color has
/// nothing to spend on.
pub proof fn lemma_next_is_none(start: Seq<u8>, b: Seq<PlaceModel>, p: usize)
    requires
        forall|k: int| 0 <= k < 8 ==> !unfinished(b, #[trigger] BoardColor::estate_colors()[k], p),
        forall|j: int| !mortgaged_at(b, p, None, j),
    ensures
        next_investment(start, b, p) is None,
{
    assert forall|j: int| !mortgaged_at(b, p, Some(BoardColor::Railroad), j) by {
        assert(!mortgaged_at(b, p, None, j));
    }
    lemma_first_mortgaged(b, p, Some(BoardColor::Railroad), -1);
    lemma_first_mortgaged(b, p, None, -1);
    lemma_leading_color(b, p, 8);
}

/// The first `true` of the mask of mortgaged places stands where the first
/// mortgaged place is; it is -1 where there is none.
pub proof fn lemma_first_mortgaged(b: Seq<PlaceModel>, p: usize, color: Option<BoardColor>, i: int)
    requires
        i == -1 || mortgaged_at(b, p, color, i),
        forall|j: int| 0 <= j < b.len() && (i == -1 || j < i) ==> !mortgaged_at(b, p, color, j),
    ensures
        first_true(mortgaged_mask(b, p, color)) == i,
{
    let mask = mortgaged_mask(b, p, color);
    assert forall|j: int| 0 <= j < mask.len() && (i == -1 || j < i) implies !mask[j] by {
        assert(!mortgaged_at(b, p, color, j));
    }
    if i == -1 {
        lemma_first_true_none(mask);
    } else {
        lemma_first_true_at(mask, i);
    }
}

/// Whether the estate color number `k` is the one that `p` spends on: it is
/// unfinished, no unfinished color has more houses, and none before it has
/// as many.
pub open spec fn leads(b: Seq<PlaceModel>, p: usize, k: int) -> bool {
    &&& 0 <= k < 8
    &&& unfinished(b, BoardColor::estate_colors()[k], p)
    &&& forall|h: int|
        0 <= h < 8 && unfinished(b, #[trigger] BoardColor::estate_colors()[h], p)
            ==> houses_built(b, BoardColor::estate_colors()[h]) <= houses_built(
            b,
            BoardColor::estate_colors()[k],
        )
    &&& forall|h: int|
        0 <= h < k && unfinished(b, #[trigger] BoardColor::estate_colors()[h], p)
            ==> houses_built(b, BoardColor::estate_colors()[h]) < houses_built(
            b,
            BoardColor::estate_colors()[k],
        )
}

/// The color that leads is the one that `leading_color` finds, once it has
/// been passed.
pub proof fn lemma_leads(b: Seq<PlaceModel>, p: usize, k: int, n: int)
    requires
        leads(b, p, k),
        k < n <= 8,
    ensures
        leading_color(b, p, n) == k,
    decreases n,
{
    let colors = BoardColor::estate_colors();
    if n - 1 > k {
        lemma_leads(b, p, k, n - 1);
        if unfinished(b, colors[n - 1], p) {
            assert(houses_built(b, colors[n - 1]) <= houses_built(b, colors[k]));
        }
    } else {
        lemma_leading_before(b, p, k, k);
    }
}

/// Before the color that leads, `leading_color` finds none or one that has
/// more houses.
pub proof fn lemma_leading_before(b: Seq<PlaceModel>, p: usize, k: int, n: int)
    requires
        leads(b, p, k),
        0 <= n <= k,
    ensures
        leading_color(b, p, n) < 0 || (unfinished(
            b,
            BoardColor::estate_colors()[leading_color(b, p, n)],
            p,
        ) && leading_color(b, p, n) < n),
    decreases n,
{
    if n > 0 {
        lemma_leading_before(b, p, k, n - 1);
    }
}

/// The board after an investment.
pub open spec fn invested(b: Seq<PlaceModel>, step: Investment) -> Seq<PlaceModel> {
    match step {
        Investment::Unmortgage(i) => b.update(
            i as int,
            PlaceModel { mortgaged: false, ..b[i as int] },
        ),
        Investment::BuildHouse(i) => b.update(
            i as int,
            PlaceModel { houses: Some((b[i as int].house_count() + 1) as u8), ..b[i as int] },
        ),
    }
}

/// What an investment costs: 110% of the mortgage value, rounded down, to lift
/// a mortgage; the price of a house to build one.
pub open spec fn cost(b: Seq<PlaceModel>, step: Investment) -> nat {
    match step {
        Investment::Unmortgage(i) => b[i as int].return_cost(),
        Investment::BuildHouse(i) => match b[i as int].house_price {
            Some(price) => price as nat,
            None => 0,
        },
    }
}

/// The number of investments that the place `m` still allows to its owner `p`
/// at most.
pub open spec fn open_steps(m: PlaceModel, p: usize) -> int {
    if m.owner == Some(p) {
        (if m.mortgaged {
            1int
        } else {
            0int
        }) + (if m.houses is Some && m.house_count() <= 5 {
            5 - m.house_count()
        } else {
            0int
        })
    } else {
        0
    }
}

/// The number of investments that the board still allows to `p` at most.
pub open spec fn invest_room(b: Seq<PlaceModel>, p: usize) -> int {
    total(Seq::new(b.len(), |i: int| open_steps(b[i], p)))
}

/// How the room for investments changes when the place at `i` is replaced.
pub proof fn lemma_room_update(b: Seq<PlaceModel>, p: usize, i: int, m: PlaceModel)
    requires
        0 <= i < b.len(),
    ensures
        invest_room(b.update(i, m), p) == invest_room(b, p) - open_steps(b[i], p) + open_steps(
            m,
            p,
        ),
        invest_room(b, p) >= 0,
{
    let b2 = b.update(i, m);
    let steps = Seq::new(b.len(), |j: int| open_steps(b[j], p));
    let steps2 = Seq::new(b2.len(), |j: int| open_steps(b2[j], p));
    assert(steps2 =~= steps.update(i, open_steps(m, p)));
    lemma_total_update(steps, i, open_steps(m, p));
    lemma_total_zero(steps);
}

/// What a step found by `next_investment` is sure of.
pub proof fn lemma_next_investment(start: Seq<u8>, b: Seq<PlaceModel>, p: usize)
    requires
        board_wf(b),
        houses_valid(b),
    ensures
        match next_investment(start, b, p) {
            Some(Investment::Unmortgage(i)) => {
                &&& i < 40
                &&& b[i as int].owner == Some(p)
                &&& b[i as int].mortgaged
                &&& b[i as int].is_property()
                &&& !has_houses(b, b[i as int].color)
            },
            Some(Investment::BuildHouse(i)) => {
                &&& i < 40
                &&& b[i as int].owner == Some(p)
                &&& b[i as int].is_estate()
                &&& monopolized_by(b, b[i as int].color, p)
                &&& !any_mortgaged(b, b[i as int].color)
                &&& b[i as int].house_count() < 5
                &&& forall|j: int|
                    of_color(b, j, b[i as int].color) ==> b[i as int].house_count()
                        <= b[j].house_count()
            },
            None => forall|i: int| 0 <= i < 40 && b[i].owner == Some(p) ==> !b[i].mortgaged,
        },
{
    let colors = BoardColor::estate_colors();
    let railroad = first_true(mortgaged_mask(b, p, Some(BoardColor::Railroad)));
    let leading = leading_color(b, p, 8);
    let rest = first_true(mortgaged_mask(b, p, None));
    lemma_first_true(mortgaged_mask(b, p, Some(BoardColor::Railroad)));
    lemma_first_true(mortgaged_mask(b, p, None));
    lemma_leading_color(b, p, 8);
    if railroad >= 0 {
        lemma_mortgaged_has_no_house(b, railroad);
    } else if leading >= 0 {
        let c = colors[leading];
        let mortgaged = first_true(mortgaged_mask(b, p, Some(c)));
        lemma_first_true(mortgaged_mask(b, p, Some(c)));
        assert(unfinished(b, c, p));
        if mortgaged >= 0 {
            lemma_mortgaged_has_no_house(b, mortgaged);
        } else {
            if any_mortgaged(b, c) {
                let j = choose|j: int| of_color(b, j, c) && b[j].mortgaged;
                assert(mortgaged_mask(b, p, Some(c))[j]);
                assert(false);
            }
            let j = choose|j: int| of_color(b, j, c) && b[j].house_count() < 5;
            lemma_place_shape(b, j);
            lemma_emptiest(start, b, c, 40);
            lemma_least_houses(houses_of(b), b, c, 40);
            let low = choose|j: int|
                0 <= j < 40 && b[j].color == c && houses_of(b)[j] == least_houses(
                    houses_of(b),
                    b,
                    c,
                    40,
                );
            lemma_place_shape(b, low);
            let i = emptiest(start, b, c, 40);
            assert(of_color(b, i, c));
            lemma_place_shape(b, i);
            assert forall|j: int| of_color(b, j, c) implies b[i].house_count()
                <= b[j].house_count() by {
                lemma_place_shape(b, j);
            }
        }
    } else if rest >= 0 {
        lemma_mortgaged_has_no_house(b, rest);
    } else {
        assert forall|i: int| 0 <= i < 40 && b[i].owner == Some(p) implies !b[i].mortgaged by {
            if b[i].mortgaged {
                assert(mortgaged_mask(b, p, None)[i]);
            }
        }
    }
}

/// Whether `b2` is what `b` has become by investments of `p`: every place has
/// the owner that it had, the places of the others are as they were, no
/// place has been mortgaged and no house has gone.
pub open spec fn built_up(b: Seq<PlaceModel>, b2: Seq<PlaceModel>, p: usize) -> bool {
    &&& b2.len() == b.len()
    &&& forall|j: int| 0 <= j < b.len() ==> (#[trigger] b2[j]).owner == b[j].owner
    &&& forall|j: int| 0 <= j < b.len() && b[j].owner != Some(p) ==> #[trigger] b2[j] == b[j]
    &&& forall|j: int| 0 <= j < b.len() && (#[trigger] b2[j]).mortgaged ==> b[j].mortgaged
    &&& forall|j: int|
        0 <= j < b.len() ==> b[j].house_count() <= (#[trigger] b2[j]).house_count()
}

/// What the step found by `next_investment` does: the board stays a board that
/// obeys the rule of building, every place keeps its owner, and `p` has one
/// investment less to make.
pub proof fn lemma_investment_step(start: Seq<u8>, b: Seq<PlaceModel>, p: usize)
    requires
        board_wf(b),
        houses_valid(b),
        next_investment(start, b, p) is Some,
    ensures
        ({
            let step = next_investment(start, b, p)->0;
            let b2 = invested(b, step);
            &&& board_wf(b2)
            &&& houses_valid(b2)
            &&& forall|j: int| 0 <= j < 40 ==> (#[trigger] b2[j]).owner == b[j].owner
            &&& built_up(b, b2, p)
            &&& 0 <= invest_room(b2, p) < invest_room(b, p)
            &&& cost(b, step) <= 220
        }),
{
    let step = next_investment(start, b, p)->0;
    let b2 = invested(b, step);
    lemma_next_investment(start, b, p);
    match step {
        Investment::Unmortgage(at) => {
            let i = at as int;
            let c = b[i].color;
            let m = PlaceModel { mortgaged: false, ..b[i] };
            assert(place_wf(b[i], i));
            lemma_place_shape(b, i);
            lemma_update_wf(b, i, m);
            lemma_room_update(b, p, i, m);
            lemma_room_update(b2, p, i, m);
            assert forall|color: BoardColor| color.is_estate() implies #[trigger] color_valid(
                b2,
                color,
            ) by {
                assert(color_valid(b, color));
                if color == c {
                    assert forall|j: int| of_color(b2, j, c) implies b2[j].house_count() == 0 by {
                        assert(of_color(b, j, c));
                    }
                } else {
                    lemma_same_color(b, b2, color);
                }
            }
        },
        Investment::BuildHouse(at) => {
            let i = at as int;
            let c = b[i].color;
            let m = PlaceModel { houses: Some((b[i].house_count() + 1) as u8), ..b[i] };
            assert(place_wf(b[i], i));
            lemma_place_shape(b, i);
            lemma_update_wf(b, i, m);
            lemma_room_update(b, p, i, m);
            lemma_room_update(b2, p, i, m);
            assert forall|color: BoardColor| color.is_estate() implies #[trigger] color_valid(
                b2,
                color,
            ) by {
                assert(color_valid(b, color));
                if color == c {
                    lemma_same_tenure(b, b2, c);
                    assert(monopolized_by(b2, c, p));
                    assert forall|j: int, k: int|
                        of_color(b2, j, c) && of_color(b2, k, c) implies b2[j].house_count()
                        <= b2[k].house_count() + 1 by {
                        assert(of_color(b, j, c) && of_color(b, k, c));
                    }
                } else {
                    lemma_same_color(b, b2, color);
                }
            }
        },
    }
}

/// How an investment ends: the board and the cash that are left.
pub struct Invested {
    pub board: Seq<PlaceModel>,
    pub money: int,
}

/// How the player `p` goes on spending up to `usable` of his cash `money`
/// from the board `b`; `start` holds the houses that stood on each place when
/// he began.
///
/// The investment that `next_investment` names is made as long as there is
/// one and the rest of `usable` pays for it; the first one that it does not
/// pay for ends it all.
pub open spec fn invest_from(
    start: Seq<u8>,
    b: Seq<PlaceModel>,
    p: usize,
    money: int,
    usable: int,
) -> Invested
    decreases invest_room(b, p),
    when board_wf(b) && houses_valid(b)
{
    match next_investment(start, b, p) {
        None => Invested { board: b, money },
        Some(step) => {
            if cost(b, step) <= usable {
                proof {
                    lemma_investment_step(start, b, p);
                }
                invest_from(
                    start,
                    invested(b, step),
                    p,
                    money - cost(b, step),
                    usable - cost(b, step),
                )
            } else {
                Invested { board: b, money }
            }
        },
    }
}

/// How the player `p` spends up to `usable` of his cash `money`.
pub open spec fn invest_outcome(b: Seq<PlaceModel>, p: usize, money: int, usable: int) -> Invested {
    invest_from(houses_of(b), b, p, money, usable)
}

/// How the player `p` invests when the highest rent that threatens him is
/// `exposure`: he spends what he has beyond it, and nothing when he has no more.
pub open spec fn investment(b: Seq<PlaceModel>, p: usize, money: int, exposure: int) -> Invested {
    if money > exposure {
        invest_outcome(b, p, money, money - exposure)
    } else {
        Invested { board: b, money }
    }
}

/// The laws of investing, from wherever the investing has got to.
pub proof fn lemma_invest_from_laws(
    start: Seq<u8>,
    b: Seq<PlaceModel>,
    p: usize,
    money: int,
    usable: int,
)
    requires
        board_wf(b),
        houses_valid(b),
        0 <= usable,
    ensures
        ({
            let end = invest_from(start, b, p, money, usable);
            &&& board_wf(end.board)
            &&& houses_valid(end.board)
            &&& forall|j: int| 0 <= j < 40 ==> (#[trigger] end.board[j]).owner == b[j].owner
            &&& built_up(b, end.board, p)
            &&& money - usable <= end.money <= money
        }),
    decreases invest_room(b, p),
{
    match next_investment(start, b, p) {
        None => {},
        Some(step) => {
            if cost(b, step) <= usable {
                lemma_investment_step(start, b, p);
                lemma_invest_from_laws(
                    start,
                    invested(b, step),
                    p,
                    money - cost(b, step),
                    usable - cost(b, step),
                );
                let mid = invested(b, step);
                let end = invest_from(start, b, p, money, usable);
                assert forall|j: int| 0 <= j < b.len() implies b[j].house_count() <= (
                #[trigger] end.board[j]).house_count() by {
                    assert(b[j].house_count() <= mid[j].house_count());
                }
                assert forall|j: int|
                    0 <= j < b.len() && (#[trigger] end.board[j]).mortgaged implies b[j].mortgaged by {
                    assert(mid[j].mortgaged);
                }
                assert forall|j: int|
                    0 <= j < b.len() && b[j].owner != Some(p) implies #[trigger] end.board[j]
                    == b[j] by {
                    assert(mid[j] == b[j]);
                }
            }
        },
    }
}

/// The laws of investing.
///
/// The board that is left is a board and obeys the rule of building, every
/// place has kept its owner, and no more than `usable` has been spent.
pub proof fn lemma_invest_laws(b: Seq<PlaceModel>, p: usize, money: int, usable: int)
    requires
        board_wf(b),
        houses_valid(b),
        0 <= usable,
    ensures
        ({
            let end = invest_outcome(b, p, money, usable);
            &&& board_wf(end.board)
            &&& houses_valid(end.board)
            &&& forall|j: int| 0 <= j < 40 ==> (#[trigger] end.board[j]).owner == b[j].owner
            &&& built_up(b, end.board, p)
            &&& money - usable <= end.money <= money
        }),
{
    lemma_invest_from_laws(houses_of(b), b, p, money, usable);
}

/// Whether the place at `i` is a mortgaged place of `p`, of the color
/// `color` where one is given.
pub open spec fn mortgaged_at(b: Seq<PlaceModel>, p: usize, color: Option<BoardColor>, i: int) -> bool {
    0 <= i < b.len() && b[i].owner == Some(p) && b[i].mortgaged && (color matches Some(c)
        ==> b[i].color == c)
}

/// Finds the first mortgaged place of `player`, of the color `color` where
/// one is given.
pub fn first_mortgaged(board: &Board, player: usize, color: Option<BoardColor>) -> (found: Option<
    usize,
>)
    requires
        board.wf(),
    ensures
        match found {
            Some(i) => mortgaged_at(board@, player, color, i as int) && forall|j: int|
                0 <= j < i ==> !mortgaged_at(board@, player, color, j),
            None => forall|j: int| !mortgaged_at(board@, player, color, j),
        },
{
    let mut i: usize = 0;
    while i < board.places.len()
        invariant
            board.wf(),
            i <= 40,
            forall|j: int| 0 <= j < i ==> !mortgaged_at(board@, player, color, j),
        decreases 40 - i,
    {
        let place = &board.places[i];
        assert(place.model() == board@[i as int]);
        let owned = match place.get_owner() {
            Some(owner) => owner == player,
            None => false,
        };
        let wanted = match color {
            Some(c) => place.get_color() == c,
            None => true,
        };
        if owned && wanted && place.is_mortgaged() {
            return Some(i);
        }
        i += 1;
    }
    None
}

/// Tells whether a house can still be built on some place of the color `color`.
pub fn color_can_build(board: &Board, color: BoardColor) -> (yes: bool)
    requires
        board.wf(),
    ensures
        yes == can_build(board@, color),
{
    let mut i: usize = 0;
    while i < board.places.len()
        invariant
            board.wf(),
            i <= 40,
            forall|j: int| 0 <= j < i ==> !(of_color(board@, j, color) && board@[j].house_count() < 5),
        decreases 40 - i,
    {
        let place = &board.places[i];
        assert(place.model() == board@[i as int]);
        if place.get_color() == color {
            let houses = match place.get_num_houses() {
                Some(houses) => houses,
                None => 0,
            };
            if houses < 5 {
                assert(of_color(board@, i as int, color));
                return true;
            }
        }
        i += 1;
    }
    false
}

/// Tells whether `player` holds the whole estate color `color` and can still
/// spend on it.
pub fn is_unfinished(board: &Board, color: BoardColor, player: usize) -> (yes: bool)
    requires
        board.wf(),
    ensures
        yes == unfinished(board@, color, player),
{
    let estate = color != BoardColor::Neutral && color != BoardColor::Railroad && color
        != BoardColor::Utilities;
    if !estate {
        return false;
    }
    match board.get_monopolizer(color) {
        Some(owner) => owner == player && (color_has_mortgage(board, color) || color_can_build(
            board,
            color,
        )),
        None => false,
    }
}

/// Counts the houses that stand on the places of the color `color`.
pub fn count_built(board: &Board, color: BoardColor) -> (houses: u8)
    requires
        board.wf(),
    ensures
        houses == houses_built(board@, color),
{
    let mut houses: u8 = 0;
    let mut i: usize = 0;
    while i < board.places.len()
        invariant
            board.wf(),
            i <= 40,
            houses == houses_total(board@, color, i as int),
            houses <= 5 * i,
        decreases 40 - i,
    {
        let place = &board.places[i];
        assert(place.model() == board@[i as int]);
        proof {
            lemma_place_shape(board@, i as int);
        }
        if place.get_color() == color {
            if let Some(count) = place.get_num_houses() {
                houses += count;
            }
        }
        i += 1;
    }
    houses
}

/// Whether the estate color number `k` leads among the first `n`: it is
/// unfinished, none of them that is unfinished has more houses, and none
/// before it has as many.
pub open spec fn leads_upto(b: Seq<PlaceModel>, p: usize, k: int, n: int) -> bool {
    &&& 0 <= k < n
    &&& unfinished(b, BoardColor::estate_colors()[k], p)
    &&& forall|h: int|
        0 <= h < n && unfinished(b, #[trigger] BoardColor::estate_colors()[h], p)
            ==> houses_built(b, BoardColor::estate_colors()[h]) <= houses_built(
            b,
            BoardColor::estate_colors()[k],
        )
    &&& forall|h: int|
        0 <= h < k && unfinished(b, #[trigger] BoardColor::estate_colors()[h], p)
            ==> houses_built(b, BoardColor::estate_colors()[h]) < houses_built(
            b,
            BoardColor::estate_colors()[k],
        )
}

/// Finds the number of the unfinished color of `player` with the most
/// houses, the first in the order of the board where several have as many.
pub fn find_leading_color(board: &Board, player: usize) -> (found: Option<usize>)
    requires
        board.wf(),
    ensures
        match found {
            Some(k) => leads(board@, player, k as int),
            None => forall|h: int|
                0 <= h < 8 ==> !unfinished(board@, #[trigger] BoardColor::estate_colors()[h], player),
        },
{
    let colors = BoardColor::get_estate_colors();
    let mut found: Option<usize> = None;
    let mut most: u8 = 0;
    let mut k: usize = 0;
    while k < colors.len()
        invariant
            board.wf(),
            colors@ == BoardColor::estate_colors(),
            k <= 8,
            match found {
                Some(at) => leads_upto(board@, player, at as int, k as int) && most
                    == houses_built(board@, BoardColor::estate_colors()[at as int]),
                None => forall|h: int|
                    0 <= h < k ==> !unfinished(
                        board@,
                        #[trigger] BoardColor::estate_colors()[h],
                        player,
                    ),
            },
        decreases 8 - k,
    {
        let color = colors[k];
        if is_unfinished(board, color, player) {
            let built = count_built(board, color);
            if found.is_none() || built > most {
                found = Some(k);
                most = built;
            }
        }
        k += 1;
    }
    found
}

/// Finds the fewest houses that `counts` gives to one place of the color
/// `color`; 256 where no place has that color.
pub fn least_of_color(board: &Board, counts: &Vec<u8>, color: BoardColor) -> (least: u16)
    requires
        board.wf(),
        counts@.len() == 40,
    ensures
        least == least_houses(counts@, board@, color, 40),
{
    let mut least: u16 = 256;
    let mut i: usize = 0;
    while i < board.places.len()
        invariant
            board.wf(),
            counts@.len() == 40,
            i <= 40,
            least == least_houses(counts@, board@, color, i as int),
            least <= 256,
        decreases 40 - i,
    {
        let place = &board.places[i];
        assert(place.model() == board@[i as int]);
        if place.get_color() == color && (counts[i] as u16) < least {
            least = counts[i] as u16;
        }
        i += 1;
    }
    least
}

/// Finds the place of the color `color` on which a house is built next: of
/// those with the fewest houses, the one that ranks lowest by `build_rank`;
/// `start` holds the houses that stood on each place when the building began.
pub fn emptiest_of_color(board: &Board, start: &Vec<u8>, color: BoardColor) -> (found: Option<
    usize,
>)
    requires
        board.wf(),
        start@.len() == 40,
    ensures
        match found {
            Some(i) => {
                &&& of_color(board@, i as int, color)
                &&& forall|j: int|
                    of_color(board@, j, color) ==> board@[i as int].house_count()
                        <= board@[j].house_count()
                &&& forall|j: int|
                    of_color(board@, j, color) && board@[j].house_count()
                        == board@[i as int].house_count() ==> build_rank(
                        start@,
                        board@,
                        color,
                        i as int,
                    ) <= build_rank(start@, board@, color, j)
            },
            None => forall|j: int| !of_color(board@, j, color),
        },
{
    let now = house_counts(board);
    let bottom = least_of_color(board, start, color);
    let least = least_of_color(board, &now, color);
    proof {
        lemma_least_houses(now@, board@, color, 40);
    }
    let mut found: Option<usize> = None;
    let mut lowest: i64 = 0;
    let mut i: usize = 0;
    while i < board.places.len()
        invariant
            board.wf(),
            start@.len() == 40,
            now@ == houses_of(board@),
            bottom == least_houses(start@, board@, color, 40),
            least == least_houses(now@, board@, color, 40),
            i <= 40,
            match found {
                Some(at) => {
                    &&& at < i
                    &&& of_color(board@, at as int, color)
                    &&& board@[at as int].house_count() == least
                    &&& lowest == build_rank(start@, board@, color, at as int)
                    &&& forall|j: int|
                        0 <= j < i && of_color(board@, j, color) && board@[j].house_count()
                            == least ==> lowest <= build_rank(start@, board@, color, j)
                },
                None => forall|j: int|
                    0 <= j < i ==> !(of_color(board@, j, color) && board@[j].house_count()
                        == least),
            },
        decreases 40 - i,
    {
        let place = &board.places[i];
        assert(place.model() == board@[i as int]);
        if place.get_color() == color && now[i] as u16 == least {
            let rank: i64 = if least <= bottom {
                i as i64
            } else if ((least - bottom) % 2 == 1) == (start[i] as u16 == bottom) {
                0 - (i as i64)
            } else {
                40 + i as i64
            };
            if found.is_none() || rank < lowest {
                found = Some(i);
                lowest = rank;
            }
        }
        i += 1;
    }
    proof {
        if found is None {
            assert forall|j: int| !of_color(board@, j, color) by {
                if of_color(board@, j, color) {
                    let k = choose|k: int|
                        0 <= k < 40 && board@[k].color == color && now@[k] == least;
                    assert(of_color(board@, k, color));
                    assert(false);
                }
            }
        } else {
            assert forall|j: int| of_color(board@, j, color) implies least
                <= board@[j].house_count() by {
                assert(now@[j] == board@[j].house_count());
            }
        }
    }
    found
}

/// Finds what `player` spends on next, if anything is left to spend on;
/// `start` holds the houses that stood on each place when the investing began.
pub fn find_investment(board: &Board, start: &Vec<u8>, player: usize) -> (step: Option<
    Investment,
>)
    requires
        board.wf(),
        houses_valid(board@),
        start@.len() == 40,
    ensures
        step == next_investment(start@, board@, player),
{
    let colors = BoardColor::get_estate_colors();
    if let Some(i) = first_mortgaged(board, player, Some(BoardColor::Railroad)) {
        proof {
            lemma_next_is_railroad(start@, board@, player, i as int);
        }
        return Some(Investment::Unmortgage(i));
    }
    if let Some(k) = find_leading_color(board, player) {
        let color = colors[k];
        if let Some(i) = first_mortgaged(board, player, Some(color)) {
            proof {
                lemma_next_is_release(start@, board@, player, k as int, i as int);
            }
            return Some(Investment::Unmortgage(i));
        }
        proof {
            assert forall|j: int| of_color(board@, j, color) implies !board@[j].mortgaged by {
                assert(!mortgaged_at(board@, player, Some(color), j));
            }
        }
        proof {
            assert forall|j: int| 0 <= j < 40 implies (#[trigger] board@[j]).house_count() <= 255 by {
                lemma_place_shape(board@, j);
            }
        }
        match emptiest_of_color(board, start, color) {
            Some(i) => {
                proof {
                    lemma_next_is_house(start@, board@, player, k as int, i as int);
                }
                return Some(Investment::BuildHouse(i));
            },
            None => {
                proof {
                    let at = choose|i: int| of_color(board@, i, color);
                    assert(of_color(board@, at, color));
                }
                return None;
            },
        }
    }
    match first_mortgaged(board, player, None) {
        Some(i) => {
            proof {
                lemma_next_is_rest(start@, board@, player, i as int);
            }
            Some(Investment::Unmortgage(i))
        },
        None => {
            proof {
                lemma_next_is_none(start@, board@, player);
            }
            None
        },
    }
}

/// Tells what an investment costs.
pub fn investment_cost(board: &Board, step: Investment) -> (price: u32)
    requires
        board.wf(),
        match step {
            Investment::Unmortgage(i) => i < 40 && board@[i as int].is_property(),
            Investment::BuildHouse(i) => i < 40,
        },
    ensures
        price == cost(board@, step),
{
    match step {
        Investment::Unmortgage(i) => {
            assert(board.places@[i as int].model() == board@[i as int]);
            board.places[i].get_return_cost()
        },
        Investment::BuildHouse(i) => {
            assert(board.places@[i as int].model() == board@[i as int]);
            match board.places[i].get_price_of_house() {
                Some(price) => price,
                None => 0,
            }
        },
    }
}

/// Makes one investment.
pub fn apply_investment(board: &mut Board, step: Investment)
    requires
        old(board).wf(),
        match step {
            Investment::Unmortgage(i) => i < 40 && old(board)@[i as int].is_property(),
            Investment::BuildHouse(i) => i < 40 && old(board)@[i as int].is_estate() && old(board)@[i as int].house_count() < 5,
        },
    ensures
        final(board).wf(),
        final(board)@ == invested(old(board)@, step),
{
    match step {
        Investment::Unmortgage(i) => {
            board.set_mortgaged(i, false);
        },
        Investment::BuildHouse(i) => {
            assert(board.places@[i as int].model() == board@[i as int]);
            let houses = match board.places[i].get_num_houses() {
                Some(houses) => houses,
                None => 0,
            };
            board.set_num_houses(i, houses + 1);
        },
    }
}

} // verus!
