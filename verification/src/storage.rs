use vstd::prelude::*;

verus! {

/// A stable per-type identifier used as the key of the storage registry.
pub type Token = u64;

/// One stored instance of a component universe `C`.
///
/// A component universe is a single concrete type (usually an enum with one
/// variant per component type) whose values each carry the token of their
/// concrete type. Two values of the same concrete type must report the same
/// token, and values of distinct concrete types must report distinct tokens;
/// the registry keys every operation by these tokens.
pub trait Component: Sized {
    /// The token of this value's concrete type, as a mathematical value.
    spec fn token(&self) -> Token;

    /// Returns the token of this value's concrete type.
    fn type_token(&self) -> (t: Token)
        ensures
            t == self.token(),
    ;
}

/// How an indexed removal can miss: the token was never registered, or its
/// sequence is shorter than the index. The two cases are kept apart.
#[derive(Clone, Copy, Debug, PartialEq, Eq, Structural)]
pub enum StorageError {
    NoSuchType,
    OutOfBounds,
}

/// One registered type: its token and the ordered sequence of its instances.
struct Row<C> {
    token: Token,
    items: Vec<C>,
}

/// A type-indexed heterogeneous store: one ordered, growable sequence of
/// instances per registered token, keyed by the token alone.
///
/// The model of a storage is a map from token to the sequence of instances
/// stored under it, in insertion order.
pub struct Storage<C> {
    rows: Vec<Row<C>>,
}

/// No two rows carry the same token.
spec fn wf_rows<C>(rows: Seq<Row<C>>) -> bool {
    forall|i: int, j: int|
        0 <= i < j < rows.len() ==> #[trigger] rows[i].token != #[trigger] rows[j].token
}

/// Some row carries token `t`.
spec fn has_row<C>(rows: Seq<Row<C>>, t: Token) -> bool {
    exists|i: int| 0 <= i < rows.len() && #[trigger] rows[i].token == t
}

/// The index of the row carrying token `t` (unique when `wf_rows` holds).
spec fn row_of<C>(rows: Seq<Row<C>>, t: Token) -> int {
    choose|i: int| 0 <= i < rows.len() && #[trigger] rows[i].token == t
}

/// The map from each registered token to its stored sequence.
spec fn map_of<C>(rows: Seq<Row<C>>) -> Map<Token, Seq<C>> {
    Map::new(|t: Token| has_row(rows, t), |t: Token| rows[row_of(rows, t)].items@)
}

impl<C> View for Storage<C> {
    type V = Map<Token, Seq<C>>;

    closed spec fn view(&self) -> Map<Token, Seq<C>> {
        map_of(self.rows@)
    }
}

/// Replacing the item sequence of one row, keeping its token, turns the model
/// map into the same map with that token's entry replaced.
proof fn lemma_view_after_row_update<C>(pre: Seq<Row<C>>, post: Seq<Row<C>>, k: int)
    requires
        wf_rows(pre),
        post.len() == pre.len(),
        0 <= k < pre.len(),
        post[k].token == pre[k].token,
        forall|i: int| 0 <= i < pre.len() && i != k ==> post[i] == pre[i],
    ensures
        wf_rows(post),
        map_of(post) == map_of(pre).insert(pre[k].token, post[k].items@),
{
    assert(forall|i: int| 0 <= i < pre.len() ==> #[trigger] post[i].token == pre[i].token);
    assert forall|t: Token| has_row(pre, t) implies has_row(post, t) by {
        let w = choose|i: int| 0 <= i < pre.len() && #[trigger] pre[i].token == t;
        assert(post[w].token == t);
    }
    assert forall|t: Token| has_row(post, t) implies has_row(pre, t) by {
        let w = choose|i: int| 0 <= i < post.len() && #[trigger] post[i].token == t;
        assert(pre[w].token == t);
    }
    assert forall|t: Token| #[trigger] has_row(post, t) implies map_of(post)[t] == map_of(
        pre,
    ).insert(pre[k].token, post[k].items@)[t] by {
        let i = row_of(post, t);
        assert(0 <= i < post.len() && post[i].token == t);
        if t == pre[k].token {
            assert(i == k);
        } else {
            assert(i != k);
            let j = row_of(pre, t);
            assert(0 <= j < pre.len() && pre[j].token == t);
            assert(j == i);
        }
    }
    assert(map_of(post) =~= map_of(pre).insert(pre[k].token, post[k].items@));
}

/// Appending a row with a fresh token adds exactly one entry to the model map.
proof fn lemma_view_after_row_push<C>(pre: Seq<Row<C>>, post: Seq<Row<C>>, t: Token)
    requires
        wf_rows(pre),
        !has_row(pre, t),
        post.len() == pre.len() + 1,
        forall|i: int| 0 <= i < pre.len() ==> post[i] == pre[i],
        post[pre.len() as int].token == t,
    ensures
        wf_rows(post),
        map_of(post) == map_of(pre).insert(t, post[pre.len() as int].items@),
{
    assert forall|i: int, j: int| 0 <= i < j < post.len() implies #[trigger] post[i].token
        != #[trigger] post[j].token by {
        if j < pre.len() {
            assert(pre[i].token != pre[j].token);
        } else {
            assert(post[i].token != t || has_row(pre, post[i].token));
        }
    }
    assert forall|u: Token| has_row(pre, u) implies has_row(post, u) by {
        let w = choose|i: int| 0 <= i < pre.len() && #[trigger] pre[i].token == u;
        assert(post[w].token == u);
    }
    assert forall|u: Token| #[trigger] has_row(post, u) implies map_of(post)[u] == map_of(
        pre,
    ).insert(t, post[pre.len() as int].items@)[u] by {
        let i = row_of(post, u);
        assert(0 <= i < post.len() && post[i].token == u);
        if u == t {
            assert(i == pre.len() as int);
        } else {
            assert(i < pre.len());
            assert(has_row(pre, u));
            let j = row_of(pre, u);
            assert(0 <= j < pre.len() && pre[j].token == u);
            assert(post[j].token == u);
            assert(j == i);
        }
    }
    assert forall|u: Token| #[trigger] has_row(post, u) implies (u == t || has_row(pre, u)) by {
        let i = row_of(post, u);
        if i < pre.len() {
            assert(pre[i].token == u);
        }
    }
    assert(map_of(post) =~= map_of(pre).insert(t, post[pre.len() as int].items@));
}

/// The sequence stored under `t` in the model `m`, or the empty sequence if
/// `t` was never registered.
pub open spec fn bucket_of<C>(m: Map<Token, Seq<C>>, t: Token) -> Seq<C> {
    if m.contains_key(t) {
        m[t]
    } else {
        Seq::<C>::empty()
    }
}

/// The model after one insertion: what `Storage::add` does.
pub open spec fn spec_add<C: Component>(m: Map<Token, Seq<C>>, c: C) -> Map<Token, Seq<C>> {
    m.insert(c.token(), bucket_of(m, c.token()).push(c))
}

/// The model after a whole ordered sequence of insertions.
pub open spec fn spec_add_all<C: Component>(m: Map<Token, Seq<C>>, cs: Seq<C>) -> Map<
    Token,
    Seq<C>,
>
    decreases cs.len(),
{
    if cs.len() == 0 {
        m
    } else {
        spec_add_all(spec_add(m, cs[0]), cs.drop_first())
    }
}

impl<C: Component> Storage<C> {
    /// Every storage this module hands out satisfies this well-formedness
    /// condition, and every operation preserves it.
    pub closed spec fn wf(&self) -> bool {
        wf_rows(self.rows@)
    }

    /// The sequence stored under token `t`, or the empty sequence if `t` was
    /// never registered.
    pub open spec fn bucket(&self, t: Token) -> Seq<C> {
        bucket_of(self@, t)
    }

    /// Creates an empty storage: no token is registered.
    pub fn new() -> (s: Self)
        ensures
            s.wf(),
            s@ == Map::<Token, Seq<C>>::empty(),
    {
        let s = Storage { rows: Vec::new() };
        proof {
            assert forall|t: Token| !has_row(s.rows@, t) by {}
            assert(s@ =~= Map::<Token, Seq<C>>::empty());
        }
        s
    }

    /// The index of the row carrying `token`, if that token is registered.
    fn find_row(&self, token: Token) -> (r: Option<usize>)
        requires
            self.wf(),
        ensures
            match r {
                Some(i) => i < self.rows@.len() && self.rows@[i as int].token == token
                    && self@.contains_key(token) && self@[token] == self.rows@[i as int].items@,
                None => !self@.contains_key(token),
            },
    {
        let n = self.rows.len();
        let mut i: usize = 0;
        while i < n
            invariant
                n == self.rows@.len(),
                i <= n,
                self.wf(),
                forall|k: int| 0 <= k < i ==> #[trigger] self.rows@[k].token != token,
            decreases n - i,
        {
            if self.rows[i].token == token {
                proof {
                    assert(has_row(self.rows@, token));
                    let j = row_of(self.rows@, token);
                    assert(0 <= j < self.rows@.len() && self.rows@[j].token == token);
                    assert(j == i);
                }
                return Some(i);
            }
            i += 1;
        }
        proof {
            if has_row(self.rows@, token) {
                let j = row_of(self.rows@, token);
                assert(self.rows@[j].token != token);
            }
        }
        None
    }

    /// Inserts `component` at the end of the sequence for its own token,
    /// registering the token first if it was never used. Never fails.
    pub fn add(&mut self, component: C)
        requires
            old(self).wf(),
        ensures
            final(self).wf(),
            final(self)@ == spec_add(old(self)@, component),
    {
        let token = component.type_token();
        let ghost pre = self.rows@;
        match self.find_row(token) {
            Some(i) => {
                let row = &mut self.rows[i];
                row.items.push(component);
                proof {
                    lemma_view_after_row_update(pre, self.rows@, i as int);
                }
            },
            None => {
                let mut items = Vec::new();
                items.push(component);
                self.rows.push(Row { token, items });
                proof {
                    lemma_view_after_row_push(pre, self.rows@, token);
                }
            },
        }
    }

    /// The full sequence for `token` in insertion order, without copying, or
    /// `None` if the token was never registered.
    pub fn get_all(&self, token: Token) -> (r: Option<&Vec<C>>)
        requires
            self.wf(),
        ensures
            match r {
                Some(v) => self@.contains_key(token) && v@ == self@[token],
                None => !self@.contains_key(token),
            },
    {
        match self.find_row(token) {
            Some(i) => Some(&self.rows[i].items),
            None => None,
        }
    }

    /// Positional read access into the sequence for `token`. Returns `None`
    /// both when the token was never registered and when the index is out of
    /// bounds.
    pub fn get(&self, token: Token, index: usize) -> (r: Option<&C>)
        requires
            self.wf(),
        ensures
            match r {
                Some(c) => self@.contains_key(token) && index < self@[token].len() && *c
                    == self@[token][index as int],
                None => !self@.contains_key(token) || index >= self.bucket(token).len(),
            },
    {
        match self.find_row(token) {
            Some(i) => {
                let row = &self.rows[i];
                if index < row.items.len() {
                    Some(&row.items[index])
                } else {
                    None
                }
            },
            None => None,
        }
    }

    /// Positional in-place mutable access into the sequence for `token`.
    /// Returns `None` both when the token was never registered and when the
    /// index is out of bounds; the storage is unchanged in that case.
    pub fn get_mut(&mut self, token: Token, index: usize) -> (r: Option<&mut C>)
        requires
            old(self).wf(),
        ensures
            final(self).wf(),
            r.is_some() ==> old(self)@.contains_key(token) && index < old(self)@[token].len()
                && *r.unwrap() == old(self)@[token][index as int] && final(self)@ == old(
                self,
            )@.insert(token, old(self)@[token].update(index as int, *final(r.unwrap()))),
            r.is_none() ==> (!old(self)@.contains_key(token) || index >= old(self).bucket(
                token,
            ).len()) && *final(self) == *old(self),
    {
        let ghost pre = self.rows@;
        match self.find_row(token) {
            Some(i) => {
                if index < self.rows[i].items.len() {
                    let row = &mut self.rows[i];
                    let c = &mut row.items[index];
                    proof {
                        lemma_view_after_row_update(pre, after_borrow(self.rows)@, i as int);
                    }
                    Some(c)
                } else {
                    None
                }
            },
            None => None,
        }
    }

    /// In-place mutable access to the full sequence for `token`, or `None` if
    /// the token was never registered.
    pub fn get_all_mut(&mut self, token: Token) -> (r: Option<&mut Vec<C>>)
        requires
            old(self).wf(),
        ensures
            final(self).wf(),
            r.is_some() ==> old(self)@.contains_key(token) && r.unwrap()@ == old(self)@[token]
                && final(self)@ == old(self)@.insert(token, final(r.unwrap())@),
            r.is_none() ==> !old(self)@.contains_key(token) && *final(self) == *old(self),
    {
        let ghost pre = self.rows@;
        match self.find_row(token) {
            Some(i) => {
                let row = &mut self.rows[i];
                let items = &mut row.items;
                proof {
                    lemma_view_after_row_update(pre, after_borrow(self.rows)@, i as int);
                }
                Some(items)
            },
            None => None,
        }
    }

    /// Removes and returns the instance at `index` in the sequence for
    /// `token`, shifting the later instances down by one position. A token
    /// that was never registered and an index past the end of its sequence
    /// are signalled apart; the storage is unchanged in either case.
    pub fn remove(&mut self, token: Token, index: usize) -> (r: Result<C, StorageError>)
        requires
            old(self).wf(),
        ensures
            final(self).wf(),
            match r {
                Ok(c) => old(self)@.contains_key(token) && index < old(self)@[token].len() && c
                    == old(self)@[token][index as int] && final(self)@ == old(self)@.insert(
                    token,
                    old(self)@[token].remove(index as int),
                ),
                Err(e) => *final(self) == *old(self) && (e == StorageError::NoSuchType <==> !old(
                    self,
                )@.contains_key(token)) && (e == StorageError::OutOfBounds <==> old(
                    self,
                )@.contains_key(token) && index >= old(self)@[token].len()),
            },
    {
        let ghost pre = self.rows@;
        match self.find_row(token) {
            Some(i) => {
                if index < self.rows[i].items.len() {
                    let row = &mut self.rows[i];
                    let c = row.items.remove(index);
                    proof {
                        lemma_view_after_row_update(pre, self.rows@, i as int);
                    }
                    Ok(c)
                } else {
                    Err(StorageError::OutOfBounds)
                }
            },
            None => Err(StorageError::NoSuchType),
        }
    }

    /// Read access to the first instance stored under `token`.
    pub fn get_first(&self, token: Token) -> (r: Option<&C>)
        requires
            self.wf(),
        ensures
            match r {
                Some(c) => self@.contains_key(token) && self@[token].len() > 0 && *c
                    == self@[token][0],
                None => !self@.contains_key(token) || self.bucket(token).len() == 0,
            },
    {
        self.get(token, 0)
    }

    /// In-place mutable access to the item sequences of the two distinct rows
    /// at positions `i < j`, obtained by splitting the row slice so the two
    /// borrows are disjoint.
    fn two_items_mut(rows: &mut Vec<Row<C>>, i: usize, j: usize) -> (r: (&mut Vec<C>, &mut Vec<C>))
        requires
            i < j < old(rows)@.len(),
        ensures
            r.0@ == old(rows)@[i as int].items@,
            r.1@ == old(rows)@[j as int].items@,
            final(rows)@.len() == old(rows)@.len(),
            final(rows)@[i as int].token == old(rows)@[i as int].token,
            final(rows)@[j as int].token == old(rows)@[j as int].token,
            final(rows)@[i as int].items@ == final(r.0)@,
            final(rows)@[j as int].items@ == final(r.1)@,
            forall|k: int|
                0 <= k < old(rows)@.len() && k != i && k != j ==> final(rows)@[k] == old(
                    rows,
                )@[k],
    {
        let slice = rows.as_mut_slice();
        let (left, right) = slice.split_at_mut(j);
        let (l1, l2) = left.split_at_mut(i);
        let a = l2.first_mut().unwrap();
        let b = right.first_mut().unwrap();
        let ra = &mut a.items;
        let rb = &mut b.items;
        (ra, rb)
    }

    /// Simultaneous in-place mutable access to the sequences of two distinct
    /// tokens. The two views are guaranteed disjoint: asking for the same
    /// token twice is rejected, and otherwise the views come from two
    /// different rows, so mutating through one view is visible only under its
    /// own token.
    pub fn get_several_mut(&mut self, first: Token, second: Token) -> (r: Option<
        (&mut Vec<C>, &mut Vec<C>),
    >)
        requires
            old(self).wf(),
        ensures
            final(self).wf(),
            r.is_some() ==> first != second && old(self)@.contains_key(first) && old(
                self,
            )@.contains_key(second) && r.unwrap().0@ == old(self)@[first] && r.unwrap().1@ == old(
                self,
            )@[second] && final(self)@ == old(self)@.insert(first, final(r.unwrap().0)@).insert(
                second,
                final(r.unwrap().1)@,
            ),
            r.is_none() ==> (first == second || !old(self)@.contains_key(first) || !old(
                self,
            )@.contains_key(second)) && *final(self) == *old(self),
    {
        if first == second {
            return None;
        }
        let ghost pre = self.rows@;
        let oi = self.find_row(first);
        let oj = self.find_row(second);
        match (oi, oj) {
            (Some(i), Some(j)) => {
                if i < j {
                    let (ra, rb) = Self::two_items_mut(&mut self.rows, i, j);
                    proof {
                        let post = after_borrow(self.rows)@;
                        let mid = pre.update(i as int, post[i as int]);
                        lemma_view_after_row_update(pre, mid, i as int);
                        lemma_view_after_row_update(mid, post, j as int);
                    }
                    Some((ra, rb))
                } else {
                    let (rb, ra) = Self::two_items_mut(&mut self.rows, j, i);
                    proof {
                        let post = after_borrow(self.rows)@;
                        let mid = pre.update(j as int, post[j as int]);
                        lemma_view_after_row_update(pre, mid, j as int);
                        lemma_view_after_row_update(mid, post, i as int);
                        assert(map_of(post) =~= map_of(pre).insert(first, post[i as int].items@)
                            .insert(second, post[j as int].items@));
                    }
                    Some((ra, rb))
                }
            },
            _ => None,
        }
    }

    /// In-place mutable access to the first instance stored under `token`.
    pub fn get_first_mut(&mut self, token: Token) -> (r: Option<&mut C>)
        requires
            old(self).wf(),
        ensures
            final(self).wf(),
            r.is_some() ==> old(self)@.contains_key(token) && old(self)@[token].len() > 0 && *r.unwrap()
                == old(self)@[token][0] && final(self)@ == old(self)@.insert(
                token,
                old(self)@[token].update(0, *final(r.unwrap())),
            ),
            r.is_none() ==> (!old(self)@.contains_key(token) || old(self).bucket(token).len() == 0)
                && *final(self) == *old(self),
    {
        self.get_mut(token, 0)
    }
}

/// Storage order law: an insertion appends at the end of its own bucket,
/// leaves every earlier instance of that bucket in place, and touches no
/// other bucket — so a sequence of insertions of one type is read back by
/// `get_all` in exactly insertion order.
pub proof fn lemma_insertion_order<C: Component>(pre: Storage<C>, post: Storage<C>, c: C)
    requires
        post@ == spec_add(pre@, c),
    ensures
        post.bucket(c.token()).len() == pre.bucket(c.token()).len() + 1,
        forall|i: int|
            0 <= i < pre.bucket(c.token()).len() ==> #[trigger] post.bucket(c.token())[i]
                == pre.bucket(c.token())[i],
        post.bucket(c.token()).last() == c,
        forall|t: Token| t != c.token() ==> #[trigger] post.bucket(t) == pre.bucket(t),
{
}

/// Storage order law, general form: after any ordered sequence of
/// insertions all of one type, that type's bucket is the prior bucket with
/// exactly those instances appended in order, and every other bucket is
/// untouched — so `get_all` reads back any run of `add` calls in insertion
/// order, however they interleave with insertions of other types.
pub proof fn lemma_insertion_order_all<C: Component>(m: Map<Token, Seq<C>>, cs: Seq<C>, t: Token)
    requires
        forall|i: int| 0 <= i < cs.len() ==> (#[trigger] cs[i]).token() == t,
    ensures
        bucket_of(spec_add_all(m, cs), t) == bucket_of(m, t) + cs,
        forall|u: Token| u != t ==> #[trigger] bucket_of(spec_add_all(m, cs), u) == bucket_of(m, u),
    decreases cs.len(),
{
    if cs.len() == 0 {
        assert(bucket_of(m, t) + cs =~= bucket_of(m, t));
    } else {
        let m1 = spec_add(m, cs[0]);
        assert(cs[0].token() == t);
        assert forall|i: int| 0 <= i < cs.drop_first().len() implies (
        #[trigger] cs.drop_first()[i]).token() == t by {
            assert(cs.drop_first()[i] == cs[i + 1]);
        }
        lemma_insertion_order_all(m1, cs.drop_first(), t);
        assert(bucket_of(m1, t) == bucket_of(m, t).push(cs[0]));
        assert(bucket_of(m, t).push(cs[0]) + cs.drop_first() =~= bucket_of(m, t) + cs);
    }
}

/// Disjointness law: every write the storage can perform replaces the bucket
/// of a single token, and the bucket of every distinct token — its presence
/// and its full contents — is left untouched, so mutation through one type's
/// view is visible only through later accesses of that same type.
pub proof fn lemma_type_disjointness<C: Component>(
    pre: Storage<C>,
    post: Storage<C>,
    t: Token,
    written: Seq<C>,
    u: Token,
)
    requires
        t != u,
        post@ == pre@.insert(t, written),
    ensures
        post@.contains_key(u) == pre@.contains_key(u),
        post.bucket(u) == pre.bucket(u),
{
}

/// Removal law: removing position `i` of a bucket deletes exactly that
/// instance, shifts every later instance down by one position, shortens the
/// bucket by exactly one, and touches no other bucket.
pub proof fn lemma_removal_shifts_down<C: Component>(
    pre: Storage<C>,
    post: Storage<C>,
    t: Token,
    i: int,
)
    requires
        pre@.contains_key(t),
        0 <= i < pre@[t].len(),
        post@ == pre@.insert(t, pre@[t].remove(i)),
    ensures
        post.bucket(t).len() == pre.bucket(t).len() - 1,
        forall|k: int| 0 <= k < i ==> #[trigger] post.bucket(t)[k] == pre.bucket(t)[k],
        forall|k: int|
            i <= k < post.bucket(t).len() ==> #[trigger] post.bucket(t)[k] == pre.bucket(t)[k + 1],
        forall|u: Token| u != t ==> #[trigger] post.bucket(u) == pre.bucket(u),
{
}

} // verus!
