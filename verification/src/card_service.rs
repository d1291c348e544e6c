use vstd::prelude::*;

use crate::card::Card;
use crate::card::CardStatus;
use crate::card::CardView;
use crate::card::CreateCardRequest;
use crate::card::UpdateCardRequest;
use crate::card::status_or_todo;
use crate::card::card_after_update;

verus! {

/// Model of one card as the store holds it, in call order of creation.
pub open spec fn seq_card_views(s: Seq<Card>) -> Seq<CardView> {
    s.map_values(|c: Card| c@)
}

/// Mathematical model of the card store: the live records and the
/// counter the next created card will take its id from.
#[verifier::ext_equal]
pub ghost struct CardStoreView {
    pub cards: Seq<CardView>,
    pub next_id: u32,
}

/// Some live record carries this id.
pub open spec fn card_has_id(s: Seq<CardView>, id: u32) -> bool {
    exists|i: int| 0 <= i < s.len() && (#[trigger] s[i]).id == id
}

/// The position of the record with this id (meaningful when ids are
/// unique and `card_has_id` holds).
pub open spec fn card_index_of(s: Seq<CardView>, id: u32) -> int {
    choose|i: int| 0 <= i < s.len() && (#[trigger] s[i]).id == id
}

/// Some live record carries this title.
pub open spec fn card_has_title(s: Seq<CardView>, t: Seq<char>) -> bool {
    exists|i: int| 0 <= i < s.len() && (#[trigger] s[i]).title == t
}

/// Some live record other than the one with the given id carries this
/// title, so giving that title to the given record would break
/// uniqueness.
pub open spec fn card_title_conflict(s: Seq<CardView>, id: u32, t: Seq<char>) -> bool {
    exists|i: int| 0 <= i < s.len() && (#[trigger] s[i]).id != id && s[i].title == t
}

/// No two live records share an id.
pub open spec fn card_ids_unique(s: Seq<CardView>) -> bool {
    forall|i: int, j: int| #![trigger s[i], s[j]]
        0 <= i < s.len() && 0 <= j < s.len() && i != j ==> s[i].id != s[j].id
}

/// No two live records share a title.
pub open spec fn card_titles_unique(s: Seq<CardView>) -> bool {
    forall|i: int, j: int| #![trigger s[i], s[j]]
        0 <= i < s.len() && 0 <= j < s.len() && i != j ==> s[i].title != s[j].title
}

/// Invariant of the card store: ids and titles are unique among live
/// records, every live id was drawn from the counter, and the counter
/// starts at one.
pub open spec fn card_store_wf(v: CardStoreView) -> bool {
    &&& 1 <= v.next_id
    &&& forall|i: int| 0 <= i < v.cards.len() ==> (#[trigger] v.cards[i]).id < v.next_id
    &&& card_ids_unique(v.cards)
    &&& card_titles_unique(v.cards)
}

/// The transition a successful create makes: the new record takes the
/// counter's value as its id, is appended to the live records, and the
/// counter moves up by one.
pub open spec fn card_create_ok(pre: CardStoreView, post: CardStoreView, c: CardView) -> bool {
    &&& c.id == pre.next_id
    &&& post.next_id == pre.next_id + 1
    &&& post.cards == pre.cards.push(c)
}

/// Exactly the live records whose status equals the given one, in
/// store order.
pub open spec fn cards_with_status(s: Seq<CardView>, status: CardStatus) -> Seq<CardView> {
    s.filter(|c: CardView| c.status == status)
}

/// An update request asks for a title some other live record already
/// carries.
pub open spec fn card_update_conflict(s: Seq<CardView>, id: u32, request: UpdateCardRequest) -> bool {
    match request.title {
        Some(t) => card_title_conflict(s, id, t@),
        None => false,
    }
}

proof fn lemma_seq_card_views_push(s: Seq<Card>, c: Card)
    ensures
        seq_card_views(s.push(c)) == seq_card_views(s).push(c@),
{
    assert forall|j: int| 0 <= j < s.len() + 1 implies seq_card_views(s.push(c))[j]
        == seq_card_views(s).push(c@)[j] by {
        if j < s.len() {
            assert(s.push(c)[j] == s[j]);
        } else {
            assert(s.push(c)[j] == c);
        }
    }
    assert(seq_card_views(s.push(c)) =~= seq_card_views(s).push(c@));
}

proof fn lemma_seq_card_views_set(s: Seq<Card>, i: int, c: Card)
    requires
        0 <= i < s.len(),
    ensures
        seq_card_views(s.update(i, c)) == seq_card_views(s).update(i, c@),
{
    assert forall|j: int| 0 <= j < s.len() implies seq_card_views(s.update(i, c))[j]
        == seq_card_views(s).update(i, c@)[j] by {
        if j != i {
            assert(s.update(i, c)[j] == s[j]);
        } else {
            assert(s.update(i, c)[j] == c);
        }
    }
    assert(seq_card_views(s.update(i, c)) =~= seq_card_views(s).update(i, c@));
}

proof fn lemma_seq_card_views_remove(s: Seq<Card>, i: int)
    requires
        0 <= i < s.len(),
    ensures
        seq_card_views(s.remove(i)) == seq_card_views(s).remove(i),
{
    assert forall|j: int| 0 <= j < s.len() - 1 implies seq_card_views(s.remove(i))[j]
        == seq_card_views(s).remove(i)[j] by {
        if j < i {
            assert(s.remove(i)[j] == s[j]);
        } else {
            assert(s.remove(i)[j] == s[j + 1]);
        }
    }
    assert(seq_card_views(s.remove(i)) =~= seq_card_views(s).remove(i));
}

/// When ids are unique, the position of a record with a matching id is
/// the position `card_index_of` picks.
pub proof fn lemma_card_index_of(s: Seq<CardView>, id: u32, i: int)
    requires
        card_ids_unique(s),
        0 <= i < s.len(),
        s[i].id == id,
    ensures
        card_has_id(s, id),
        card_index_of(s, id) == i,
{
    assert(card_has_id(s, id));
    let j = card_index_of(s, id);
    if j != i {
        assert(s[j].id != s[i].id);
    }
}

/// The in-memory card store: the authoritative collection of live
/// cards and the monotonic id allocator. Records are handed out as
/// copies, never as references into the store.
pub struct CardService {
    cards: Vec<Card>,
    next_id: u32,
}

impl View for CardService {
    type V = CardStoreView;

    closed spec fn view(&self) -> CardStoreView {
        CardStoreView { cards: seq_card_views(self.cards@), next_id: self.next_id }
    }
}

impl CardService {
    /// The store's invariant, established by `new` and preserved by
    /// every operation.
    pub open spec fn wf(&self) -> bool {
        card_store_wf(self@)
    }

    /// An empty store whose first card will get id 1.
    pub fn new() -> (s: Self)
        ensures
            s.wf(),
            s@.cards == Seq::<CardView>::empty(),
            s@.next_id == 1u32,
    {
        let s = CardService { cards: Vec::new(), next_id: 1 };
        proof {
            assert(seq_card_views(s.cards@) =~= Seq::<CardView>::empty());
        }
        s
    }

    /// True while the id allocator can still hand out a fresh id;
    /// `create_card` and `create_card_at` ask for this.
    pub fn can_allocate_id(&self) -> (r: bool)
        ensures
            r == (self@.next_id < u32::MAX),
    {
        self.next_id < u32::MAX
    }

    /// Finds the position of the record with this id, if any.
    fn index_of_id(&self, id: u32) -> (r: Option<usize>)
        requires
            self.wf(),
        ensures
            match r {
                Some(i) => {
                    &&& card_has_id(self@.cards, id)
                    &&& i < self@.cards.len()
                    &&& self@.cards[i as int].id == id
                    &&& card_index_of(self@.cards, id) == i
                },
                None => !card_has_id(self@.cards, id),
            },
    {
        let n = self.cards.len();
        let mut i: usize = 0;
        while i < n
            invariant
                i <= n,
                n == self.cards.len(),
                self.wf(),
                forall|j: int| 0 <= j < i ==> (#[trigger] self@.cards[j]).id != id,
            decreases n - i,
        {
            if self.cards[i].id == id {
                proof {
                    lemma_card_index_of(self@.cards, id, i as int);
                }
                return Some(i);
            }
            i = i + 1;
        }
        None
    }

    /// True when some live record carries this title.
    fn contains_title(&self, t: &String) -> (r: bool)
        ensures
            r == card_has_title(self@.cards, t@),
    {
        let n = self.cards.len();
        let mut i: usize = 0;
        while i < n
            invariant
                i <= n,
                n == self.cards.len(),
                forall|j: int| 0 <= j < i ==> (#[trigger] self@.cards[j]).title != t@,
            decreases n - i,
        {
            if self.cards[i].title == *t {
                proof {
                    assert(self@.cards[i as int].title == t@);
                }
                return true;
            }
            i = i + 1;
        }
        false
    }

    /// True when some live record other than the one with this id
    /// carries this title.
    fn title_conflicts(&self, id: u32, t: &String) -> (r: bool)
        ensures
            r == card_title_conflict(self@.cards, id, t@),
    {
        let n = self.cards.len();
        let mut i: usize = 0;
        while i < n
            invariant
                i <= n,
                n == self.cards.len(),
                forall|j: int| 0 <= j < i
                    ==> !((#[trigger] self@.cards[j]).id != id && self@.cards[j].title == t@),
            decreases n - i,
        {
            if self.cards[i].id != id && self.cards[i].title == *t {
                proof {
                    assert(self@.cards[i as int].id != id && self@.cards[i as int].title == t@);
                }
                return true;
            }
            i = i + 1;
        }
        false
    }

    /// A snapshot of every live record, in creation order.
    pub fn get_all_cards(&self) -> (r: Result<Vec<Card>, String>)
        ensures
            r matches Ok(v) && seq_card_views(v@) == self@.cards,
    {
        let n = self.cards.len();
        let mut out: Vec<Card> = Vec::new();
        let mut i: usize = 0;
        while i < n
            invariant
                i <= n,
                n == self.cards.len(),
                out@.len() == i as int,
                forall|j: int| 0 <= j < i ==> (#[trigger] out@[j])@ == self@.cards[j],
            decreases n - i,
        {
            let c = self.cards[i].clone();
            out.push(c);
            i = i + 1;
        }
        proof {
            assert forall|j: int| 0 <= j < out@.len() implies seq_card_views(out@)[j]
                == self@.cards[j] by {
                assert(out@[j]@ == self@.cards[j]);
            }
            assert(seq_card_views(out@) =~= self@.cards);
        }
        Ok(out)
    }

    /// A copy of the record with this id, or `None` when no live
    /// record carries it.
    pub fn get_card_by_id(&self, id: u32) -> (r: Result<Option<Card>, String>)
        requires
            self.wf(),
        ensures
            match r {
                Ok(Some(c)) => card_has_id(self@.cards, id)
                    && c@ == self@.cards[card_index_of(self@.cards, id)],
                Ok(None) => !card_has_id(self@.cards, id),
                Err(_) => false,
            },
    {
        match self.index_of_id(id) {
            Some(i) => Ok(Some(self.cards[i].clone())),
            None => Ok(None),
        }
    }

    /// Copies of exactly the live records whose status equals the given
    /// one, in creation order.
    pub fn get_cards_by_status(&self, status: CardStatus) -> (r: Result<Vec<Card>, String>)
        ensures
            r matches Ok(v) && seq_card_views(v@) == cards_with_status(self@.cards, status),
    {
        let n = self.cards.len();
        let mut out: Vec<Card> = Vec::new();
        let mut i: usize = 0;
        while i < n
            invariant
                i <= n,
                n == self.cards.len(),
                seq_card_views(out@) == cards_with_status(self@.cards.take(i as int), status),
            decreases n - i,
        {
            proof {
                assert(self@.cards[i as int] == self.cards@[i as int]@);
            }
            if self.cards[i].status == status {
                let c = self.cards[i].clone();
                let ghost pre_out = out@;
                out.push(c);
                proof {
                    reveal(Seq::filter);
                    assert(self@.cards.take(i + 1).drop_last() =~= self@.cards.take(i as int));
                    assert(self@.cards.take(i + 1).last() == self@.cards[i as int]);
                    lemma_seq_card_views_push(pre_out, c);
                    assert(cards_with_status(self@.cards.take(i + 1), status)
                        == cards_with_status(self@.cards.take(i as int), status).push(self@.cards[i as int]));
                }
            } else {
                proof {
                    reveal(Seq::filter);
                    assert(self@.cards.take(i + 1).drop_last() =~= self@.cards.take(i as int));
                    assert(self@.cards.take(i + 1).last() == self@.cards[i as int]);
                    assert(cards_with_status(self@.cards.take(i + 1), status)
                        == cards_with_status(self@.cards.take(i as int), status));
                }
            }
            i = i + 1;
        }
        proof {
            assert(self@.cards.take(n as int) =~= self@.cards);
        }
        Ok(out)
    }

    /// Creates a card whose timestamps are the given instant. The new
    /// record takes the next id; a title some live record already
    /// carries is rejected and leaves the store untouched.
    pub fn create_card_at(&mut self, request: CreateCardRequest, now: String) -> (r: Result<Card, String>)
        requires
            old(self).wf(),
            old(self)@.next_id < u32::MAX,
        ensures
            final(self).wf(),
            match r {
                Ok(c) => {
                    &&& !card_has_title(old(self)@.cards, request.title@)
                    &&& card_create_ok(old(self)@, final(self)@, c@)
                    &&& c@ == (CardView {
                        id: old(self)@.next_id,
                        title: request.title@,
                        content: request.content@,
                        status: status_or_todo(request.status),
                        created_at: now@,
                        updated_at: now@,
                    })
                },
                Err(m) => {
                    &&& card_has_title(old(self)@.cards, request.title@)
                    &&& m@ == "Card title already exists"@
                    &&& final(self)@ == old(self)@
                },
            },
    {
        if self.contains_title(&request.title) {
            return Err("Card title already exists".to_owned());
        }
        let id = self.next_id;
        self.next_id = self.next_id + 1;
        let card = Card::new(id, request.title, request.content, request.status, now);
        let out = card.clone();
        let ghost pre_cards = self.cards@;
        self.cards.push(card);
        proof {
            lemma_seq_card_views_push(pre_cards, card);
            let pre = old(self)@;
            let post = self@;
            assert(post.cards == pre.cards.push(card@));
            assert forall|i: int, j: int| #![trigger post.cards[i], post.cards[j]]
                0 <= i < post.cards.len() && 0 <= j < post.cards.len() && i != j
                implies post.cards[i].id != post.cards[j].id && post.cards[i].title != post.cards[j].title by {
                if i < pre.cards.len() && j < pre.cards.len() {
                    assert(pre.cards[i] == post.cards[i] && pre.cards[j] == post.cards[j]);
                } else if j == pre.cards.len() {
                    assert(post.cards[i] == pre.cards[i]);
                    assert(!(pre.cards[i].title == card@.title));
                } else {
                    assert(post.cards[j] == pre.cards[j]);
                    assert(!(pre.cards[j].title == card@.title));
                }
            }
        }
        Ok(out)
    }

    /// Creates a card timestamped with the current instant. Same
    /// outcome as `create_card_at`, except that the (equal) creation
    /// and update times are whatever the clock read.
    pub fn create_card(&mut self, request: CreateCardRequest) -> (r: Result<Card, String>)
        requires
            old(self).wf(),
            old(self)@.next_id < u32::MAX,
        ensures
            final(self).wf(),
            match r {
                Ok(c) => {
                    &&& !card_has_title(old(self)@.cards, request.title@)
                    &&& card_create_ok(old(self)@, final(self)@, c@)
                    &&& c@.title == request.title@
                    &&& c@.content == request.content@
                    &&& c@.status == status_or_todo(request.status)
                    &&& c@.created_at == c@.updated_at
                },
                Err(m) => {
                    &&& card_has_title(old(self)@.cards, request.title@)
                    &&& m@ == "Card title already exists"@
                    &&& final(self)@ == old(self)@
                },
            },
    {
        let now = crate::clock::now_rfc3339();
        self.create_card_at(request, now)
    }

    /// Applies a partial update, timestamped with the given instant, to
    /// the record with this id: `Ok(None)` when the id is not live, an
    /// error (store untouched) when the requested title belongs to
    /// another live record, otherwise a copy of the updated record.
    pub fn update_card_at(&mut self, id: u32, request: UpdateCardRequest, now: String) -> (r: Result<Option<Card>, String>)
        requires
            old(self).wf(),
        ensures
            final(self).wf(),
            ({
                let pre = old(self)@;
                match r {
                    Ok(None) => !card_has_id(pre.cards, id) && final(self)@ == pre,
                    Ok(Some(c)) => {
                        &&& card_has_id(pre.cards, id)
                        &&& !card_update_conflict(pre.cards, id, request)
                        &&& c@ == card_after_update(pre.cards[card_index_of(pre.cards, id)], request, now@)
                        &&& final(self)@.cards == pre.cards.update(card_index_of(pre.cards, id), c@)
                        &&& final(self)@.next_id == pre.next_id
                    },
                    Err(m) => {
                        &&& card_has_id(pre.cards, id)
                        &&& card_update_conflict(pre.cards, id, request)
                        &&& m@ == "Card title already exists"@
                        &&& final(self)@ == pre
                    },
                }
            }),
    {
        let i = match self.index_of_id(id) {
            None => {
                return Ok(None);
            },
            Some(i) => i,
        };
        let conflict = match &request.title {
            Some(t) => self.title_conflicts(id, t),
            None => false,
        };
        if conflict {
            return Err("Card title already exists".to_owned());
        }
        let mut updated = self.cards[i].clone();
        updated.update(request, now);
        let out = updated.clone();
        let ghost pre_cards = self.cards@;
        self.cards.set(i, updated);
        proof {
            lemma_seq_card_views_set(pre_cards, i as int, updated);
            let pre = old(self)@;
            let post = self@;
            assert(post.cards == pre.cards.update(i as int, updated@));
            assert forall|p: int, q: int| #![trigger post.cards[p], post.cards[q]]
                0 <= p < post.cards.len() && 0 <= q < post.cards.len() && p != q
                implies post.cards[p].id != post.cards[q].id && post.cards[p].title != post.cards[q].title by {
                if p != i as int && q != i as int {
                    assert(post.cards[p] == pre.cards[p] && post.cards[q] == pre.cards[q]);
                } else if p == i as int {
                    assert(post.cards[q] == pre.cards[q]);
                    assert(pre.cards[q].id != id);
                } else {
                    assert(post.cards[p] == pre.cards[p]);
                    assert(pre.cards[p].id != id);
                }
            }
        }
        Ok(Some(out))
    }

    /// Applies a partial update timestamped with the current instant.
    /// Same outcome as `update_card_at`, except that the refreshed
    /// update time is whatever the clock read.
    pub fn update_card(&mut self, id: u32, request: UpdateCardRequest) -> (r: Result<Option<Card>, String>)
        requires
            old(self).wf(),
        ensures
            final(self).wf(),
            ({
                let pre = old(self)@;
                match r {
                    Ok(None) => !card_has_id(pre.cards, id) && final(self)@ == pre,
                    Ok(Some(c)) => {
                        &&& card_has_id(pre.cards, id)
                        &&& !card_update_conflict(pre.cards, id, request)
                        &&& c@ == card_after_update(pre.cards[card_index_of(pre.cards, id)], request, c@.updated_at)
                        &&& final(self)@.cards == pre.cards.update(card_index_of(pre.cards, id), c@)
                        &&& final(self)@.next_id == pre.next_id
                    },
                    Err(m) => {
                        &&& card_has_id(pre.cards, id)
                        &&& card_update_conflict(pre.cards, id, request)
                        &&& m@ == "Card title already exists"@
                        &&& final(self)@ == pre
                    },
                }
            }),
    {
        let now = crate::clock::now_rfc3339();
        self.update_card_at(id, request, now)
    }

    /// Removes the record with this id; reports whether one was live.
    /// Deleting an absent id is not an error and changes nothing.
    pub fn delete_card(&mut self, id: u32) -> (r: Result<bool, String>)
        requires
            old(self).wf(),
        ensures
            final(self).wf(),
            ({
                let pre = old(self)@;
                match r {
                    Ok(true) => {
                        &&& card_has_id(pre.cards, id)
                        &&& final(self)@.cards == pre.cards.remove(card_index_of(pre.cards, id))
                        &&& final(self)@.next_id == pre.next_id
                    },
                    Ok(false) => !card_has_id(pre.cards, id) && final(self)@ == pre,
                    Err(_) => false,
                }
            }),
    {
        match self.index_of_id(id) {
            None => Ok(false),
            Some(i) => {
                let ghost pre_cards = self.cards@;
                self.cards.remove(i);
                proof {
                    lemma_seq_card_views_remove(pre_cards, i as int);
                    let pre = old(self)@;
                    let post = self@;
                    assert(post.cards == pre.cards.remove(i as int));
                    assert forall|p: int, q: int| #![trigger post.cards[p], post.cards[q]]
                        0 <= p < post.cards.len() && 0 <= q < post.cards.len() && p != q
                        implies post.cards[p].id != post.cards[q].id
                            && post.cards[p].title != post.cards[q].title by {
                        let p0: int = if p < i as int { p } else { p + 1 };
                        let q0: int = if q < i as int { q } else { q + 1 };
                        assert(post.cards[p] == pre.cards[p0] && post.cards[q] == pre.cards[q0]);
                    }
                    assert forall|p: int| 0 <= p < post.cards.len()
                        implies (#[trigger] post.cards[p]).id < post.next_id by {
                        let p0: int = if p < i as int { p } else { p + 1 };
                        assert(post.cards[p] == pre.cards[p0]);
                    }
                }
                Ok(true)
            },
        }
    }
}

/// A chain of successful creates: step `i` turns `states[i]` into
/// `states[i + 1]` and returns `created[i]`.
pub open spec fn card_create_seq_ok(states: Seq<CardStoreView>, created: Seq<CardView>) -> bool {
    &&& states.len() == created.len() + 1
    &&& forall|i: int| 0 <= i < created.len()
            ==> card_create_ok(states[i], states[i + 1], #[trigger] created[i])
}

/// Along a chain of successful creates the counter advances by exactly
/// one per call: no create is lost and none is counted twice.
pub proof fn lemma_card_create_seq_counter(states: Seq<CardStoreView>, created: Seq<CardView>)
    requires
        card_create_seq_ok(states, created),
    ensures
        forall|i: int, j: int| #![trigger states[i], states[j]]
            0 <= i <= j < states.len() ==> states[i].next_id + (j - i) == states[j].next_id,
    decreases created.len(),
{
    if created.len() > 0 {
        let n = created.len() as int;
        let states2 = states.take(n);
        let created2 = created.take(n - 1);
        assert(card_create_seq_ok(states2, created2)) by {
            assert forall|i: int| 0 <= i < created2.len() implies card_create_ok(
                states2[i],
                states2[i + 1],
                #[trigger] created2[i],
            ) by {
                assert(created2[i] == created[i]);
                assert(states2[i] == states[i] && states2[i + 1] == states[i + 1]);
                assert(card_create_ok(states[i], states[i + 1], created[i]));
            }
        }
        lemma_card_create_seq_counter(states2, created2);
        assert(card_create_ok(states[n - 1], states[n], created[n - 1]));
        assert forall|i: int, j: int| #![trigger states[i], states[j]]
            0 <= i <= j < states.len() implies states[i].next_id + (j - i) == states[j].next_id by {
            if j < n {
                assert(states2[i] == states[i] && states2[j] == states[j]);
                assert(states2[i].next_id + (j - i) == states2[j].next_id);
            } else if i == j {
            } else {
                assert(states2[i] == states[i] && states2[n - 1] == states[n - 1]);
                assert(states2[i].next_id + (n - 1 - i) == states2[n - 1].next_id);
            }
        }
    }
}

/// For every sequence of successful creates, the ids handed out are
/// strictly increasing in call order (hence all distinct), and the
/// counter ends exactly one higher per create.
pub proof fn lemma_card_create_ids_strictly_increase(states: Seq<CardStoreView>, created: Seq<CardView>)
    requires
        card_create_seq_ok(states, created),
    ensures
        states.last().next_id == states[0].next_id + created.len(),
        forall|i: int, j: int| #![trigger created[i], created[j]]
            0 <= i < j < created.len() ==> created[i].id < created[j].id,
{
    lemma_card_create_seq_counter(states, created);
    let n = created.len() as int;
    assert(states[0].next_id + n == states[n].next_id);
    assert forall|i: int, j: int| #![trigger created[i], created[j]]
        0 <= i < j < created.len() implies created[i].id < created[j].id by {
        assert(card_create_ok(states[i], states[i + 1], created[i]));
        assert(card_create_ok(states[j], states[j + 1], created[j]));
        assert(states[i].next_id + (j - i) == states[j].next_id);
    }
}

/// A created id is fresh: no record live before the create carried it.
pub proof fn lemma_card_create_id_fresh(pre: CardStoreView, post: CardStoreView, c: CardView)
    requires
        card_store_wf(pre),
        card_create_ok(pre, post, c),
    ensures
        !card_has_id(pre.cards, c.id),
        card_has_id(post.cards, c.id),
{
    assert forall|i: int| 0 <= i < pre.cards.len() implies (#[trigger] pre.cards[i]).id != c.id by {
        assert(pre.cards[i].id < pre.next_id);
    }
    assert(post.cards[pre.cards.len() as int] == c);
}

/// After a successful create the new record's title is live, so a
/// second create with the same title must fail; creation also keeps
/// every title that was already live.
pub proof fn lemma_card_create_title_present(pre: CardStoreView, post: CardStoreView, c: CardView)
    requires
        card_create_ok(pre, post, c),
    ensures
        card_has_title(post.cards, c.title),
        forall|t: Seq<char>| #[trigger] card_has_title(pre.cards, t) ==> card_has_title(post.cards, t),
{
    assert(post.cards[pre.cards.len() as int] == c);
    assert forall|t: Seq<char>| #[trigger] card_has_title(pre.cards, t)
        implies card_has_title(post.cards, t) by {
        let w = choose|i: int| 0 <= i < pre.cards.len() && (#[trigger] pre.cards[i]).title == t;
        assert(post.cards[w] == pre.cards[w]);
    }
}

/// A partial update never touches the id or the creation time, and a
/// field left out of the request keeps its prior value, byte for byte.
pub proof fn lemma_card_update_keeps_unset_fields(c: CardView, request: UpdateCardRequest, now: Seq<char>)
    ensures
        card_after_update(c, request, now).id == c.id,
        card_after_update(c, request, now).created_at == c.created_at,
        card_after_update(c, request, now).updated_at == now,
        request.title is None ==> card_after_update(c, request, now).title == c.title,
        request.content is None ==> card_after_update(c, request, now).content == c.content,
        request.status is None ==> card_after_update(c, request, now).status == c.status,
{
}

/// Deleting removes exactly one record, and the deleted id is no
/// longer live: deleting it a second time must report false and leave
/// the store as it is.
pub proof fn lemma_card_delete_id_absent(pre: CardStoreView, post: CardStoreView, id: u32)
    requires
        card_store_wf(pre),
        card_has_id(pre.cards, id),
        post.cards == pre.cards.remove(card_index_of(pre.cards, id)),
    ensures
        post.cards.len() == pre.cards.len() - 1,
        !card_has_id(post.cards, id),
{
    let k = card_index_of(pre.cards, id);
    assert(0 <= k < pre.cards.len() && pre.cards[k].id == id);
    assert forall|i: int| 0 <= i < post.cards.len() implies (#[trigger] post.cards[i]).id != id by {
        let i0: int = if i < k {
            i
        } else {
            i + 1
        };
        assert(post.cards[i] == pre.cards[i0]);
        assert(pre.cards[i0].id != pre.cards[k].id);
    }
}

impl Default for CardService {
    /// An empty store, as `new` builds it.
    fn default() -> (s: Self)
        ensures
            s.wf(),
            s@.cards == Seq::<CardView>::empty(),
            s@.next_id == 1u32,
    {
        CardService::new()
    }
}


} // verus!
