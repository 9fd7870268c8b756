use vstd::prelude::*;
use vstd::std_specs::convert::FromSpecImpl;

verus! {

/// What a [`Lookahead`] is, as plain mathematics: the items it owns and its
/// two positions. A position is any integer; only those from `0` up to the
/// number of items (exclusive) name an item.
pub struct LookaheadView<T> {
    pub items: Seq<T>,
    pub peek: int,
    pub real: int,
}

impl<T> LookaheadView<T> {
    /// The item that a read at position `pos` yields, if there is one.
    pub open spec fn item_at(self, pos: int) -> Option<T> {
        if 0 <= pos < self.items.len() {
            Some(self.items[pos])
        } else {
            None
        }
    }

    /// The cursor as it is right after construction over `items`.
    pub open spec fn fresh(items: Seq<T>) -> Self {
        LookaheadView { items, peek: 0, real: 0 }
    }
}

/// The lowest position a cursor can hold.
pub open spec fn position_floor() -> int {
    i128::MIN as int
}

/// The highest position a cursor can hold.
pub open spec fn position_ceiling() -> int {
    i128::MAX as int
}

/// `pos`, held within the positions a cursor can hold. Every position that a
/// caller can reach from an item by fewer than `2^64` moves of any size is
/// left as it is.
pub open spec fn clamp_position(pos: int) -> int {
    if pos < position_floor() {
        position_floor()
    } else if pos > position_ceiling() {
        position_ceiling()
    } else {
        pos
    }
}

/// A move forward and the same move back leave a position where it was, as
/// long as the move forward stays within the positions a cursor can hold; so
/// does a move back and the same move forward.
pub proof fn lemma_moves_undo(pos: int, n: nat)
    requires
        position_floor() <= pos <= position_ceiling(),
    ensures
        pos + n <= position_ceiling() ==> clamp_position(clamp_position(pos + n) - n) == pos,
        position_floor() <= pos - n ==> clamp_position(clamp_position(pos - n) + n) == pos,
{
}

/// A cursor over an owned sequence with two positions: the committed ("real")
/// one, which only [`Lookahead::next`] advances, and the "peek" one, which
/// can be moved ahead and back freely to look at items without consuming them.
///
/// A peek position before the first item or past the last is not an error:
/// reads there yield no item.
#[derive(Debug, Clone)]
pub struct Lookahead<T> {
    inner: Vec<T>,
    peek_cursor: i128,
    real_cursor: i128,
}

impl<T> View for Lookahead<T> {
    type V = LookaheadView<T>;

    closed spec fn view(&self) -> LookaheadView<T> {
        LookaheadView {
            items: self.inner@,
            peek: self.peek_cursor as int,
            real: self.real_cursor as int,
        }
    }
}

impl<T> Lookahead<T> {
    /// Both positions always lie within the range a cursor can hold.
    pub proof fn lemma_positions_bounded(&self)
        ensures
            position_floor() <= self@.peek <= position_ceiling(),
            position_floor() <= self@.real <= position_ceiling(),
    {
    }
}

impl<T> Lookahead<T> {
    /// The items are held in a vector, so their number fits a `usize`.
    pub proof fn lemma_items_fit(&self)
        ensures
            self@.items.len() <= usize::MAX,
    {
        assert(self.inner@.len() == self.inner.len());
    }
}

impl<T: Clone> Lookahead<T> {
    /// Creates a cursor over `inner`, with both positions at the first item.
    #[must_use]
    pub fn new(inner: Vec<T>) -> (r: Self)
        ensures
            r@ == LookaheadView::fresh(inner@),
    {
        Lookahead { inner, peek_cursor: 0, real_cursor: 0 }
    }

    /// Returns a clone of the item at the peek position, or `None` when the
    /// peek position names no item. Nothing moves.
    #[must_use]
    pub fn current(&mut self) -> (r: Option<T>)
        ensures
            final(self)@ == old(self)@,
            r is Some <==> old(self)@.item_at(old(self)@.peek) is Some,
            r is Some ==> cloned(old(self)@.item_at(old(self)@.peek).unwrap(), r.unwrap()),
    {
        self.read_peek()
    }

    /// Moves the peek position forward by `n` items. The committed position
    /// stays.
    pub fn forward(&mut self, n: usize)
        ensures
            final(self)@ == (LookaheadView {
                peek: clamp_position(old(self)@.peek + n),
                ..old(self)@
            }),
    {
        let step: i128 = n as i128;
        if self.peek_cursor > i128::MAX - step {
            self.peek_cursor = i128::MAX;
        } else {
            self.peek_cursor = self.peek_cursor + step;
        }
    }

    /// Moves the peek position backward by `n` items. The committed position
    /// stays.
    pub fn backward(&mut self, n: usize)
        ensures
            final(self)@ == (LookaheadView {
                peek: clamp_position(old(self)@.peek - n),
                ..old(self)@
            }),
    {
        let step: i128 = n as i128;
        if self.peek_cursor < i128::MIN + step {
            self.peek_cursor = i128::MIN;
        } else {
            self.peek_cursor = self.peek_cursor - step;
        }
    }

    /// Puts the peek position back on the committed position.
    pub fn reset_cursor(&mut self)
        ensures
            final(self)@ == (LookaheadView { peek: old(self)@.real, ..old(self)@ }),
    {
        self.peek_cursor = self.real_cursor;
    }

    /// Consumes one item: returns a clone of the item at the peek position
    /// (`None` when it names no item) and advances both positions by one.
    pub fn next(&mut self) -> (r: Option<T>)
        ensures
            final(self)@ == (LookaheadView {
                peek: clamp_position(old(self)@.peek + 1),
                real: clamp_position(old(self)@.real + 1),
                ..old(self)@
            }),
            r is Some <==> old(self)@.item_at(old(self)@.peek) is Some,
            r is Some ==> cloned(old(self)@.item_at(old(self)@.peek).unwrap(), r.unwrap()),
    {
        let ret = self.read_peek();
        if self.real_cursor < i128::MAX {
            self.real_cursor = self.real_cursor + 1;
        }
        if self.peek_cursor < i128::MAX {
            self.peek_cursor = self.peek_cursor + 1;
        }
        ret
    }

    fn read_peek(&self) -> (r: Option<T>)
        ensures
            r is Some <==> self@.item_at(self@.peek) is Some,
            r is Some ==> cloned(self@.item_at(self@.peek).unwrap(), r.unwrap()),
    {
        if 0 <= self.peek_cursor && self.peek_cursor < self.inner.len() as i128 {
            let at: usize = self.peek_cursor as usize;
            Some(self.inner[at].clone())
        } else {
            None
        }
    }
}

impl<T: Clone> From<Vec<T>> for Lookahead<T> {
    /// The same cursor as [`Lookahead::new`] makes.
    fn from(inner: Vec<T>) -> (r: Self)
        ensures
            r@ == LookaheadView::fresh(inner@),
    {
        Lookahead { inner, peek_cursor: 0, real_cursor: 0 }
    }
}

impl<T: Clone> FromSpecImpl<Vec<T>> for Lookahead<T> {
    open spec fn obeys_from_spec() -> bool {
        true
    }

    closed spec fn from_spec(inner: Vec<T>) -> Self {
        Lookahead { inner, peek_cursor: 0, real_cursor: 0 }
    }
}

impl<T: Clone> From<Lookahead<T>> for Vec<T> {
    /// Gives back the items, dropping both positions.
    fn from(cursor: Lookahead<T>) -> (v: Self)
        ensures
            v@ == cursor@.items,
    {
        cursor.inner
    }
}

impl<T: Clone> FromSpecImpl<Lookahead<T>> for Vec<T> {
    open spec fn obeys_from_spec() -> bool {
        true
    }

    closed spec fn from_spec(cursor: Lookahead<T>) -> Self {
        cursor.inner
    }
}

} // verus!
