//! The cache of message pages: the content of messages, grouped by page.
use vstd::prelude::*;

use crate::date_time::DateTimeAsMicroseconds;
use crate::queue_with_intervals::MessageId;

verus! {

pub type PageId = i64;

pub const MESSAGES_IN_PAGE: i64 = 100_000;

/// The page that holds a message.
pub open spec fn page_of(message_id: int) -> int {
    message_id / (MESSAGES_IN_PAGE as int)
}

pub fn get_page_id(message_id: MessageId) -> (result: PageId)
    requires
        message_id >= 0,
    ensures
        result == page_of(message_id as int),
{
    message_id / MESSAGES_IN_PAGE
}

pub struct MySbMessageContent {
    pub id: MessageId,
    pub content: Vec<u8>,
    pub time: DateTimeAsMicroseconds,
}

/// A message of a page: its content, or the fact that it is lost or not loaded yet.
pub enum MySbMessage {
    Loaded(MySbMessageContent),
    Missing { id: MessageId },
    NotLoaded { id: MessageId },
}

impl MySbMessage {
    pub open spec fn message_id(&self) -> MessageId {
        match self {
            MySbMessage::Loaded(content) => content.id,
            MySbMessage::Missing { id } => *id,
            MySbMessage::NotLoaded { id } => *id,
        }
    }

    pub fn get_message_id(&self) -> (result: MessageId)
        ensures
            result == self.message_id(),
    {
        match self {
            MySbMessage::Loaded(content) => content.id,
            MySbMessage::Missing { id } => *id,
            MySbMessage::NotLoaded { id } => *id,
        }
    }
}

pub struct MessagesPage {
    pub page_id: PageId,
    pub messages: Vec<MySbMessage>,
}

/// The first message with the given id.
pub open spec fn find_message(messages: Seq<MySbMessage>, id: int) -> Option<MySbMessage>
    decreases messages.len(),
{
    if messages.len() == 0 {
        None
    } else if messages[0].message_id() == id {
        Some(messages[0])
    } else {
        find_message(messages.drop_first(), id)
    }
}

pub proof fn lemma_find_message_id(messages: Seq<MySbMessage>, id: int)
    ensures
        find_message(messages, id) matches Some(m) ==> m.message_id() == id,
    decreases messages.len(),
{
    if messages.len() > 0 && messages[0].message_id() != id {
        lemma_find_message_id(messages.drop_first(), id);
    }
}

/// The first page with the given id.
pub open spec fn find_page(pages: Seq<MessagesPage>, page_id: int) -> Option<MessagesPage>
    decreases pages.len(),
{
    if pages.len() == 0 {
        None
    } else if pages[0].page_id == page_id {
        Some(pages[0])
    } else {
        find_page(pages.drop_first(), page_id)
    }
}

/// What the cache holds for a message id.
pub open spec fn lookup(pages: Seq<MessagesPage>, id: int) -> Option<MySbMessage> {
    match find_page(pages, page_of(id)) {
        Some(page) => find_message(page.messages@, id),
        None => None,
    }
}

impl MessagesPage {
    pub fn new(page_id: PageId) -> (result: Self)
        ensures
            result.page_id == page_id,
            result.messages@ == Seq::<MySbMessage>::empty(),
    {
        MessagesPage { page_id, messages: Vec::new() }
    }

    pub fn get(&self, id: MessageId) -> (result: Option<&MySbMessage>)
        ensures
            match result {
                Some(m) => find_message(self.messages@, id as int) == Some(*m),
                None => find_message(self.messages@, id as int) is None,
            },
    {
        let ghost s = self.messages@;
        let mut i: usize = 0;
        proof {
            assert(s.skip(0) =~= s);
        }
        while i < self.messages.len()
            invariant
                s == self.messages@,
                0 <= i <= s.len(),
                find_message(s, id as int) == find_message(s.skip(i as int), id as int),
            decreases s.len() - i,
        {
            proof {
                assert(s.skip(i as int).drop_first() =~= s.skip(i + 1));
                assert(s.skip(i as int)[0] == s[i as int]);
            }
            if self.messages[i].get_message_id() == id {
                return Some(&self.messages[i]);
            }
            i = i + 1;
        }
        None
    }

    /// Adds a message at the end of the page.
    pub fn add(&mut self, message: MySbMessage)
        ensures
            final(self).page_id == old(self).page_id,
            final(self).messages@ == old(self).messages@.push(message),
    {
        self.messages.push(message);
    }
}

pub struct MessagesPagesCache {
    pub pages: Vec<MessagesPage>,
}

impl MessagesPagesCache {
    pub fn new() -> (result: Self)
        ensures
            result.pages@ == Seq::<MessagesPage>::empty(),
    {
        MessagesPagesCache { pages: Vec::new() }
    }

    pub fn get_page(&self, page_id: PageId) -> (result: Option<&MessagesPage>)
        ensures
            match result {
                Some(p) => find_page(self.pages@, page_id as int) == Some(*p),
                None => find_page(self.pages@, page_id as int) is None,
            },
    {
        let ghost s = self.pages@;
        let mut i: usize = 0;
        proof {
            assert(s.skip(0) =~= s);
        }
        while i < self.pages.len()
            invariant
                s == self.pages@,
                0 <= i <= s.len(),
                find_page(s, page_id as int) == find_page(s.skip(i as int), page_id as int),
            decreases s.len() - i,
        {
            proof {
                assert(s.skip(i as int).drop_first() =~= s.skip(i + 1));
                assert(s.skip(i as int)[0] == s[i as int]);
            }
            if self.pages[i].page_id == page_id {
                return Some(&self.pages[i]);
            }
            i = i + 1;
        }
        None
    }

    /// Puts a page in the cache, in place of the page with the same id if there is one.
    pub fn restore_page(&mut self, page: MessagesPage)
        ensures
            find_page(final(self).pages@, page.page_id as int) == Some(page),
            forall|other: int| other != page.page_id ==> #[trigger] find_page(final(self).pages@, other) == find_page(
                old(self).pages@,
                other,
            ),
    {
        let ghost s = self.pages@;
        let mut i: usize = 0;
        while i < self.pages.len() && self.pages[i].page_id != page.page_id
            invariant
                s == self.pages@,
                0 <= i <= s.len(),
                forall|j: int| 0 <= j < i ==> (#[trigger] s[j]).page_id != page.page_id,
            decreases s.len() - i,
        {
            i = i + 1;
        }
        let ghost pid = page.page_id;
        let ghost p = page;
        if i < self.pages.len() {
            self.pages.set(i, page);
        } else {
            self.pages.push(page);
        }
        proof {
            lemma_find_page_replace(s, i as int, p, self.pages@);
        }
    }
}

/// Putting a page at the first position with its id (or at the end) changes the lookup of that id only.
proof fn lemma_find_page_replace(s: Seq<MessagesPage>, i: int, p: MessagesPage, t: Seq<MessagesPage>)
    requires
        0 <= i <= s.len(),
        forall|j: int| 0 <= j < i ==> (#[trigger] s[j]).page_id != p.page_id,
        i < s.len() ==> s[i].page_id == p.page_id && t == s.update(i, p),
        i == s.len() ==> t == s.push(p),
    ensures
        find_page(t, p.page_id as int) == Some(p),
        forall|other: int| other != p.page_id ==> #[trigger] find_page(t, other) == find_page(s, other),
    decreases s.len(),
{
    if i == 0 {
        assert(t[0] == p);
        assert forall|other: int| other != p.page_id implies #[trigger] find_page(t, other) == find_page(s, other) by {
            assert(t.len() > 0);
            assert(find_page(t, other) == find_page(t.drop_first(), other));
            if s.len() > 0 {
                assert(t.drop_first() =~= s.drop_first());
                assert(s[0].page_id == p.page_id);
                assert(find_page(s, other) == find_page(s.drop_first(), other));
            } else {
                assert(t.drop_first() =~= Seq::<MessagesPage>::empty());
                assert(find_page(t.drop_first(), other) is None);
            }
        }
    } else {
        let s1 = s.drop_first();
        let t1 = t.drop_first();
        assert forall|j: int| 0 <= j < i - 1 implies (#[trigger] s1[j]).page_id != p.page_id by {
            assert(s1[j] == s[j + 1]);
        }
        if i < s.len() {
            assert(t1 =~= s1.update(i - 1, p));
        } else {
            assert(t1 =~= s1.push(p));
        }
        lemma_find_page_replace(s1, i - 1, p, t1);
        assert(t[0] == s[0]);
        assert(s[0].page_id != p.page_id);
        assert(find_page(t, p.page_id as int) == find_page(t1, p.page_id as int));
        assert forall|other: int| other != p.page_id implies #[trigger] find_page(t, other) == find_page(s, other) by {
            assert(find_page(t1, other) == find_page(s1, other));
            if s[0].page_id != other {
                assert(find_page(t, other) == find_page(t1, other));
                assert(find_page(s, other) == find_page(s1, other));
            }
        }
    }
}

} // verus!
