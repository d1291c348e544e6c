use vstd::prelude::*;

verus! {

/// Workflow state of a card. Newly created cards default to `Todo`
/// when no status is given.
#[derive(Debug, Clone, Copy, PartialEq, Eq, Structural)]
pub enum CardStatus {
    Todo,
    InProgress,
    Done,
}

impl Default for CardStatus {
    fn default() -> (r: Self)
        ensures
            r == CardStatus::Todo,
    {
        CardStatus::Todo
    }
}

/// A card record as stored and as returned to callers: the id is
/// assigned by the store, the timestamps are RFC 3339 strings set by
/// the store at creation and on each successful update.
#[derive(Debug)]
pub struct Card {
    pub id: u32,
    pub title: String,
    pub content: String,
    pub status: CardStatus,
    pub created_at: String,
    pub updated_at: String,
}

/// Mathematical model of a `Card`: the strings as character sequences.
#[verifier::ext_equal]
pub ghost struct CardView {
    pub id: u32,
    pub title: Seq<char>,
    pub content: Seq<char>,
    pub status: CardStatus,
    pub created_at: Seq<char>,
    pub updated_at: Seq<char>,
}

impl View for Card {
    type V = CardView;

    open spec fn view(&self) -> CardView {
        CardView {
            id: self.id,
            title: self.title@,
            content: self.content@,
            status: self.status,
            created_at: self.created_at@,
            updated_at: self.updated_at@,
        }
    }
}

impl Clone for Card {
    fn clone(&self) -> (r: Self)
        ensures
            r@ == self@,
    {
        Card {
            id: self.id,
            title: self.title.clone(),
            content: self.content.clone(),
            status: self.status,
            created_at: self.created_at.clone(),
            updated_at: self.updated_at.clone(),
        }
    }
}

/// Fields a caller supplies to create a card; the status is optional
/// and defaults to `Todo`.
#[derive(Debug)]
pub struct CreateCardRequest {
    pub title: String,
    pub content: String,
    pub status: Option<CardStatus>,
}

/// A partial update: only the fields that are present are applied,
/// absent fields keep their prior value.
#[derive(Debug)]
pub struct UpdateCardRequest {
    pub title: Option<String>,
    pub content: Option<String>,
    pub status: Option<CardStatus>,
}

/// The status a freshly created card gets: the requested one, or `Todo`.
pub open spec fn status_or_todo(s: Option<CardStatus>) -> CardStatus {
    match s {
        Some(st) => st,
        None => CardStatus::Todo,
    }
}

/// The text a partial update leaves in a field: the new value when one
/// is supplied, the prior value otherwise.
pub open spec fn text_or_prior(o: Option<String>, prior: Seq<char>) -> Seq<char> {
    match o {
        Some(t) => t@,
        None => prior,
    }
}

/// The status a partial update leaves: the new one when supplied, the
/// prior one otherwise.
pub open spec fn status_or_prior(o: Option<CardStatus>, prior: CardStatus) -> CardStatus {
    match o {
        Some(st) => st,
        None => prior,
    }
}

/// The record a successful update produces: supplied fields replaced,
/// absent fields kept, the id and creation time untouched, and the
/// update time refreshed to the given instant.
pub open spec fn card_after_update(c: CardView, request: UpdateCardRequest, now: Seq<char>) -> CardView {
    CardView {
        id: c.id,
        title: text_or_prior(request.title, c.title),
        content: text_or_prior(request.content, c.content),
        status: status_or_prior(request.status, c.status),
        created_at: c.created_at,
        updated_at: now,
    }
}

impl Card {
    /// Builds a fresh card: both timestamps are the given creation time.
    pub fn new(id: u32, title: String, content: String, status: Option<CardStatus>, now: String) -> (r: Self)
        ensures
            r@ == (CardView {
                id: id,
                title: title@,
                content: content@,
                status: status_or_todo(status),
                created_at: now@,
                updated_at: now@,
            }),
    {
        let st: CardStatus = match status {
            Some(s) => s,
            None => CardStatus::Todo,
        };
        Card {
            id,
            title,
            content,
            status: st,
            created_at: now.clone(),
            updated_at: now,
        }
    }

    /// Applies a partial update in place: present fields replace the
    /// prior values, absent ones are kept, the id and creation time are
    /// untouched, and the update time becomes the given instant.
    pub fn update(&mut self, request: UpdateCardRequest, now: String)
        ensures
            final(self)@ == card_after_update(old(self)@, request, now@),
    {
        match request.title {
            Some(t) => {
                self.title = t;
            },
            None => {},
        }
        match request.content {
            Some(t) => {
                self.content = t;
            },
            None => {},
        }
        match request.status {
            Some(st) => {
                self.status = st;
            },
            None => {},
        }
        self.updated_at = now;
    }
}

} // verus!
