//! Chat-side state: the per-conversation dedup cursor, the sender-keyed
//! table of most recent messages, and the decision taken for each polled
//! conversation.

use vstd::prelude::*;
use crate::text::{
    lex_lt,
    lemma_lex_irrefl,
    lemma_lex_transitive,
    str_lex_cmp,
    replace_all,
    replaced,
};

verus! {

/// Value stored under `k` in an association sequence keyed by `i64`.
pub open spec fn cursor_lookup(s: Seq<(i64, i32)>, k: i64) -> Option<i32>
    decreases s.len(),
{
    if s.len() == 0 {
        None
    } else if s[0].0 == k {
        Some(s[0].1)
    } else {
        cursor_lookup(s.skip(1), k)
    }
}

proof fn lemma_cursor_lookup_found(s: Seq<(i64, i32)>, i: int, k: i64)
    requires
        0 <= i < s.len(),
        s[i].0 == k,
        forall|j: int| 0 <= j < i ==> (#[trigger] s[j]).0 != k,
    ensures
        cursor_lookup(s, k) == Some(s[i].1),
    decreases i,
{
    if i > 0 {
        assert(s.skip(1)[i - 1] == s[i]);
        assert forall|j: int| 0 <= j < i - 1 implies (#[trigger] s.skip(1)[j]).0 != k by {
            assert(s.skip(1)[j] == s[j + 1]);
        }
        lemma_cursor_lookup_found(s.skip(1), i - 1, k);
    }
}

proof fn lemma_cursor_lookup_none(s: Seq<(i64, i32)>, k: i64)
    requires
        forall|j: int| 0 <= j < s.len() ==> (#[trigger] s[j]).0 != k,
    ensures
        cursor_lookup(s, k) is None,
    decreases s.len(),
{
    if s.len() > 0 {
        assert forall|j: int| 0 <= j < s.skip(1).len() implies (#[trigger] s.skip(1)[j]).0 != k by {
            assert(s.skip(1)[j] == s[j + 1]);
        }
        lemma_cursor_lookup_none(s.skip(1), k);
    }
}

proof fn lemma_cursor_lookup_update(s: Seq<(i64, i32)>, i: int, k: i64, v: i32)
    requires
        0 <= i < s.len(),
        s[i].0 == k,
        forall|j: int| 0 <= j < i ==> (#[trigger] s[j]).0 != k,
    ensures
        cursor_lookup(s.update(i, (k, v)), k) == Some(v),
        forall|k2: i64| k2 != k ==> cursor_lookup(s.update(i, (k, v)), k2) == cursor_lookup(s, k2),
    decreases i,
{
    let u = s.update(i, (k, v));
    if i == 0 {
        assert(u[0] == (k, v));
        assert(u.skip(1) =~= s.skip(1));
        assert forall|k2: i64| k2 != k implies cursor_lookup(u, k2) == cursor_lookup(s, k2) by {
            assert(cursor_lookup(u, k2) == cursor_lookup(u.skip(1), k2));
            assert(cursor_lookup(s, k2) == cursor_lookup(s.skip(1), k2));
        }
    } else {
        assert(u[0] == s[0]);
        assert(s.skip(1)[i - 1] == s[i]);
        assert forall|j: int| 0 <= j < i - 1 implies (#[trigger] s.skip(1)[j]).0 != k by {
            assert(s.skip(1)[j] == s[j + 1]);
        }
        lemma_cursor_lookup_update(s.skip(1), i - 1, k, v);
        assert(u.skip(1) =~= s.skip(1).update(i - 1, (k, v)));
        assert(s[0].0 != k);
        assert(cursor_lookup(u, k) == cursor_lookup(u.skip(1), k));
        assert forall|k2: i64| k2 != k implies cursor_lookup(u, k2) == cursor_lookup(s, k2) by {
            if u[0].0 != k2 {
                assert(cursor_lookup(u, k2) == cursor_lookup(u.skip(1), k2));
                assert(cursor_lookup(s, k2) == cursor_lookup(s.skip(1), k2));
            }
        }
    }
}

proof fn lemma_cursor_lookup_push(s: Seq<(i64, i32)>, k: i64, v: i32)
    requires
        forall|j: int| 0 <= j < s.len() ==> (#[trigger] s[j]).0 != k,
    ensures
        cursor_lookup(s.push((k, v)), k) == Some(v),
        forall|k2: i64| k2 != k ==> cursor_lookup(s.push((k, v)), k2) == cursor_lookup(s, k2),
    decreases s.len(),
{
    let u = s.push((k, v));
    if s.len() == 0 {
        assert(u[0] == (k, v));
        assert(u.skip(1) =~= Seq::<(i64, i32)>::empty());
        assert forall|k2: i64| k2 != k implies cursor_lookup(u, k2) == cursor_lookup(s, k2) by {
            assert(cursor_lookup(u, k2) == cursor_lookup(u.skip(1), k2));
        }
    } else {
        assert(u[0] == s[0]);
        assert forall|j: int| 0 <= j < s.skip(1).len() implies (#[trigger] s.skip(1)[j]).0 != k by {
            assert(s.skip(1)[j] == s[j + 1]);
        }
        lemma_cursor_lookup_push(s.skip(1), k, v);
        assert(u.skip(1) =~= s.skip(1).push((k, v)));
        assert forall|k2: i64| k2 != k implies cursor_lookup(u, k2) == cursor_lookup(s, k2) by {
            if u[0].0 != k2 {
                assert(cursor_lookup(u, k2) == cursor_lookup(u.skip(1), k2));
                assert(cursor_lookup(s, k2) == cursor_lookup(s.skip(1), k2));
            }
        }
    }
}

/// Per-conversation high-water mark of already-delivered message ids.
/// A message is forwarded only when its id strictly exceeds the stored
/// cursor for its conversation; the cursor then advances to it.
pub struct DedupCursor {
    entries: Vec<(i64, i32)>,
}

/// How one `observe` call relates the cursor state before and after it:
/// the message is forwarded exactly when its id strictly exceeds the
/// stored cursor; a forwarded id becomes the new cursor; nothing else moves.
pub open spec fn observe_rel(
    pre: DedupCursor,
    post: DedupCursor,
    chat_id: i64,
    msg_id: i32,
    forward: bool,
) -> bool {
    &&& forward == (match pre.cursor(chat_id) {
        Some(p) => msg_id > p,
        None => true,
    })
    &&& (forward ==> post.cursor(chat_id) == Some(msg_id))
    &&& (!forward ==> post == pre)
    &&& (forall|k: i64| k != chat_id ==> post.cursor(k) == pre.cursor(k))
}

impl DedupCursor {
    /// Keys are pairwise distinct.
    pub closed spec fn wf(&self) -> bool {
        forall|i: int, j: int|
            0 <= i < j < self.entries@.len() ==> (#[trigger] self.entries@[i]).0 != (
            #[trigger] self.entries@[j]).0
    }

    /// The stored high-water mark for conversation `k`, if any.
    pub closed spec fn cursor(&self, k: i64) -> Option<i32> {
        cursor_lookup(self.entries@, k)
    }

    /// An empty cursor table: no conversation has been seen.
    pub fn new() -> (r: Self)
        ensures
            r.wf(),
            forall|k: i64| #[trigger] r.cursor(k) is None,
    {
        let r = DedupCursor { entries: Vec::new() };
        proof {
            assert forall|k: i64| #[trigger] r.cursor(k) is None by {
                assert(r.entries@.len() == 0);
            }
        }
        r
    }

    /// Decide whether the message with id `msg_id` in conversation
    /// `chat_id` is new, and advance the cursor when it is.
    pub fn observe(&mut self, chat_id: i64, msg_id: i32) -> (forward: bool)
        requires
            old(self).wf(),
        ensures
            final(self).wf(),
            observe_rel(*old(self), *final(self), chat_id, msg_id, forward),
    {
        let n = self.entries.len();
        let mut i: usize = 0;
        while i < n
            invariant
                0 <= i <= n,
                n == self.entries@.len(),
                *self == *old(self),
                old(self).wf(),
                forall|j: int| 0 <= j < i ==> (#[trigger] self.entries@[j]).0 != chat_id,
            decreases n - i,
        {
            if self.entries[i].0 == chat_id {
                let prev = self.entries[i].1;
                proof {
                    lemma_cursor_lookup_found(self.entries@, i as int, chat_id);
                }
                if msg_id <= prev {
                    return false;
                }
                self.entries[i] = (chat_id, msg_id);
                proof {
                    lemma_cursor_lookup_update(
                        old(self).entries@,
                        i as int,
                        chat_id,
                        msg_id,
                    );
                    assert forall|a: int, b: int|
                        0 <= a < b < self.entries@.len() implies (#[trigger] self.entries@[a]).0
                        != (#[trigger] self.entries@[b]).0 by {
                        assert(old(self).entries@[a].0 != old(self).entries@[b].0);
                    }
                }
                return true;
            }
            i = i + 1;
        }
        proof {
            lemma_cursor_lookup_none(self.entries@, chat_id);
        }
        self.entries.push((chat_id, msg_id));
        proof {
            lemma_cursor_lookup_push(old(self).entries@, chat_id, msg_id);
            assert forall|a: int, b: int|
                0 <= a < b < self.entries@.len() implies (#[trigger] self.entries@[a]).0 != (
            #[trigger] self.entries@[b]).0 by {
                if b < self.entries@.len() - 1 {
                    assert(old(self).entries@[a].0 != old(self).entries@[b].0);
                } else {
                    assert(self.entries@[b].0 == chat_id);
                    assert(old(self).entries@[a].0 != chat_id);
                }
            }
        }
        true
    }
}

/// Law: one `observe` never moves any conversation's cursor backwards.
pub proof fn lemma_cursor_monotonic(
    pre: DedupCursor,
    post: DedupCursor,
    chat_id: i64,
    msg_id: i32,
    forward: bool,
    k: i64,
)
    requires
        observe_rel(pre, post, chat_id, msg_id, forward),
        pre.cursor(k) is Some,
    ensures
        post.cursor(k) is Some,
        post.cursor(k).unwrap() >= pre.cursor(k).unwrap(),
{
}

/// Law: once a message id has been accepted for a conversation, a later
/// message in that conversation is forwarded exactly when its id is
/// strictly larger; duplicates and older ids are never forwarded again.
pub proof fn lemma_dedup_filters(
    c0: DedupCursor,
    c1: DedupCursor,
    c2: DedupCursor,
    chat_id: i64,
    m1: i32,
    m2: i32,
    f2: bool,
)
    requires
        observe_rel(c0, c1, chat_id, m1, true),
        observe_rel(c1, c2, chat_id, m2, f2),
    ensures
        f2 <==> m2 > m1,
{
}

/// Value stored under key `k` in an association sequence of character
/// sequences.
pub open spec fn table_lookup(s: Seq<(Seq<char>, Seq<char>)>, k: Seq<char>) -> Option<Seq<char>>
    decreases s.len(),
{
    if s.len() == 0 {
        None
    } else if s[0].0 == k {
        Some(s[0].1)
    } else {
        table_lookup(s.skip(1), k)
    }
}

proof fn lemma_table_lookup_found(s: Seq<(Seq<char>, Seq<char>)>, i: int, k: Seq<char>)
    requires
        0 <= i < s.len(),
        s[i].0 == k,
        forall|j: int| 0 <= j < i ==> (#[trigger] s[j]).0 != k,
    ensures
        table_lookup(s, k) == Some(s[i].1),
    decreases i,
{
    if i > 0 {
        assert(s.skip(1)[i - 1] == s[i]);
        assert forall|j: int| 0 <= j < i - 1 implies (#[trigger] s.skip(1)[j]).0 != k by {
            assert(s.skip(1)[j] == s[j + 1]);
        }
        lemma_table_lookup_found(s.skip(1), i - 1, k);
    }
}

proof fn lemma_table_lookup_update(s: Seq<(Seq<char>, Seq<char>)>, i: int, k: Seq<char>, v: Seq<char>)
    requires
        0 <= i < s.len(),
        s[i].0 == k,
        forall|j: int| 0 <= j < i ==> (#[trigger] s[j]).0 != k,
    ensures
        table_lookup(s.update(i, (k, v)), k) == Some(v),
        forall|k2: Seq<char>|
            k2 != k ==> table_lookup(s.update(i, (k, v)), k2) == table_lookup(s, k2),
    decreases i,
{
    let u = s.update(i, (k, v));
    if i == 0 {
        assert(u[0] == (k, v));
        assert(u.skip(1) =~= s.skip(1));
        assert forall|k2: Seq<char>| k2 != k implies table_lookup(u, k2) == table_lookup(s, k2) by {
            assert(table_lookup(u, k2) == table_lookup(u.skip(1), k2));
            assert(table_lookup(s, k2) == table_lookup(s.skip(1), k2));
        }
    } else {
        assert(u[0] == s[0]);
        assert(s.skip(1)[i - 1] == s[i]);
        assert forall|j: int| 0 <= j < i - 1 implies (#[trigger] s.skip(1)[j]).0 != k by {
            assert(s.skip(1)[j] == s[j + 1]);
        }
        lemma_table_lookup_update(s.skip(1), i - 1, k, v);
        assert(u.skip(1) =~= s.skip(1).update(i - 1, (k, v)));
        assert(s[0].0 != k);
        assert(table_lookup(u, k) == table_lookup(u.skip(1), k));
        assert forall|k2: Seq<char>| k2 != k implies table_lookup(u, k2) == table_lookup(s, k2) by {
            if u[0].0 != k2 {
                assert(table_lookup(u, k2) == table_lookup(u.skip(1), k2));
                assert(table_lookup(s, k2) == table_lookup(s.skip(1), k2));
            }
        }
    }
}

proof fn lemma_table_lookup_insert(s: Seq<(Seq<char>, Seq<char>)>, i: int, k: Seq<char>, v: Seq<char>)
    requires
        0 <= i <= s.len(),
        forall|j: int| 0 <= j < i ==> (#[trigger] s[j]).0 != k,
    ensures
        table_lookup(s.insert(i, (k, v)), k) == Some(v),
        forall|k2: Seq<char>|
            k2 != k ==> table_lookup(s.insert(i, (k, v)), k2) == table_lookup(s, k2),
    decreases i,
{
    let u = s.insert(i, (k, v));
    s.insert_ensures(i, (k, v));
    if i == 0 {
        assert(u[0] == (k, v));
        assert(u.skip(1) =~= s);
        assert forall|k2: Seq<char>| k2 != k implies table_lookup(u, k2) == table_lookup(s, k2) by {
            assert(table_lookup(u, k2) == table_lookup(u.skip(1), k2));
        }
    } else {
        assert(u[0] == s[0]);
        assert forall|j: int| 0 <= j < i - 1 implies (#[trigger] s.skip(1)[j]).0 != k by {
            assert(s.skip(1)[j] == s[j + 1]);
        }
        lemma_table_lookup_insert(s.skip(1), i - 1, k, v);
        assert(u.skip(1) =~= s.skip(1).insert(i - 1, (k, v)));
        assert(s[0].0 != k);
        assert(table_lookup(u, k) == table_lookup(u.skip(1), k));
        assert(table_lookup(s, k) == table_lookup(s.skip(1), k));
        assert forall|k2: Seq<char>| k2 != k implies table_lookup(u, k2) == table_lookup(s, k2) by {
            if u[0].0 != k2 {
                assert(table_lookup(u, k2) == table_lookup(u.skip(1), k2));
                assert(table_lookup(s, k2) == table_lookup(s.skip(1), k2));
            }
        }
    }
}

proof fn lemma_lex_ne(a: Seq<char>, b: Seq<char>)
    requires
        lex_lt(a, b),
    ensures
        a != b,
{
    if a == b {
        lemma_lex_irrefl(a);
    }
}

/// The table of each sender's most recent message, kept in strictly
/// ascending lexicographic order of the sender key. Inserting a message
/// for a sender already present overwrites the prior entry.
pub struct ChatTable {
    entries: Vec<(String, String)>,
}

impl View for ChatTable {
    type V = Seq<(Seq<char>, Seq<char>)>;

    closed spec fn view(&self) -> Seq<(Seq<char>, Seq<char>)> {
        self.entries.deep_view()
    }
}

impl ChatTable {
    /// Entries are strictly sorted by sender key, so keys are unique and
    /// iteration order is deterministic.
    pub open spec fn wf(&self) -> bool {
        forall|i: int, j: int|
            0 <= i < j < self@.len() ==> lex_lt(
                (#[trigger] self@[i]).0,
                (#[trigger] self@[j]).0,
            )
    }

    /// The message stored for `sender`, if any.
    pub open spec fn message_for(&self, sender: Seq<char>) -> Option<Seq<char>> {
        table_lookup(self@, sender)
    }

    /// An empty table.
    pub fn new() -> (r: Self)
        ensures
            r.wf(),
            r@.len() == 0,
    {
        let r = ChatTable { entries: Vec::new() };
        proof {
            assert(r@ =~= Seq::<(Seq<char>, Seq<char>)>::empty());
        }
        r
    }

    /// The entries in display order: ascending by sender key.
    pub fn entries(&self) -> (r: &Vec<(String, String)>)
        ensures
            r.deep_view() == self@,
    {
        &self.entries
    }

    /// Store `text` as the most recent message of `sender`, overwriting
    /// any prior entry for the same sender and keeping the key order.
    pub fn upsert(&mut self, sender: &str, text: &str)
        requires
            old(self).wf(),
        ensures
            final(self).wf(),
            final(self).message_for(sender@) == Some(text@),
            forall|k: Seq<char>|
                k != sender@ ==> final(self).message_for(k) == old(self).message_for(k),
            old(self).message_for(sender@) is Some ==> final(self)@.len() == old(self)@.len(),
            old(self).message_for(sender@) is None ==> final(self)@.len() == old(self)@.len() + 1,
    {
        let n = self.entries.len();
        let mut i: usize = 0;
        while i < n
            invariant
                0 <= i <= n,
                n == self.entries@.len(),
                *self == *old(self),
                old(self).wf(),
                forall|j: int| 0 <= j < i ==> lex_lt((#[trigger] self@[j]).0, sender@),
            decreases n - i,
        {
            proof {
                assert(self@[i as int] == (self.entries@[i as int].0@, self.entries@[i as int].1@));
            }
            let c = str_lex_cmp(self.entries[i].0.as_str(), sender);
            if c == 0 {
                proof {
                    assert forall|j: int| 0 <= j < i implies (#[trigger] self@[j]).0 != sender@ by {
                        lemma_lex_ne(self@[j].0, sender@);
                    }
                    lemma_table_lookup_found(self@, i as int, sender@);
                }
                self.entries[i] = (sender.to_owned(), text.to_owned());
                proof {
                    assert(self@ =~= old(self)@.update(i as int, (sender@, text@)));
                    lemma_table_lookup_update(old(self)@, i as int, sender@, text@);
                    assert forall|a: int, b: int|
                        0 <= a < b < self@.len() implies lex_lt(
                        (#[trigger] self@[a]).0,
                        (#[trigger] self@[b]).0,
                    ) by {
                        assert(lex_lt(old(self)@[a].0, old(self)@[b].0));
                        assert(self@[a].0 == old(self)@[a].0 || self@[a].0 == sender@);
                        assert(old(self)@[i as int].0 == sender@);
                    }
                }
                return ;
            }
            if c > 0 {
                proof {
                    assert(lex_lt(sender@, self@[i as int].0));
                    assert forall|j: int| 0 <= j < self@.len() implies (#[trigger] self@[j]).0
                        != sender@ by {
                        if j < i {
                            lemma_lex_ne(self@[j].0, sender@);
                        } else if j == i {
                            lemma_lex_ne(sender@, self@[j].0);
                        } else {
                            lemma_lex_transitive(sender@, self@[i as int].0, self@[j].0);
                            lemma_lex_ne(sender@, self@[j].0);
                        }
                    }
                    lemma_table_lookup_insert(old(self)@, i as int, sender@, text@);
                    lemma_table_lookup_none(old(self)@, sender@);
                }
                self.entries.insert(i, (sender.to_owned(), text.to_owned()));
                proof {
                    old(self)@.insert_ensures(i as int, (sender@, text@));
                    assert(self@ =~= old(self)@.insert(i as int, (sender@, text@)));
                    assert forall|a: int, b: int|
                        0 <= a < b < self@.len() implies lex_lt(
                        (#[trigger] self@[a]).0,
                        (#[trigger] self@[b]).0,
                    ) by {
                        let u = old(self)@.insert(i as int, (sender@, text@));
                        if b < i {
                            assert(u[a] == old(self)@[a] && u[b] == old(self)@[b]);
                        } else if b == i {
                            assert(u[a] == old(self)@[a]);
                            assert(u[b].0 == sender@);
                        } else {
                            assert(u[b] == old(self)@[b - 1]);
                            if a < i {
                                assert(u[a] == old(self)@[a]);
                                if a < b - 1 {
                                    assert(lex_lt(old(self)@[a].0, old(self)@[b - 1].0));
                                } else {
                                    assert(a == i - 1 && b == i + 1);
                                    lemma_lex_transitive(
                                        old(self)@[a].0,
                                        sender@,
                                        old(self)@[b - 1].0,
                                    );
                                }
                            } else if a == i {
                                assert(u[a].0 == sender@);
                                if i < b - 1 {
                                    lemma_lex_transitive(
                                        sender@,
                                        old(self)@[i as int].0,
                                        old(self)@[b - 1].0,
                                    );
                                }
                            } else {
                                assert(u[a] == old(self)@[a - 1]);
                            }
                        }
                    }
                }
                return ;
            }
            proof {
                assert(c < 0);
                assert(lex_lt(self@[i as int].0, sender@));
            }
            i = i + 1;
        }
        proof {
            assert forall|j: int| 0 <= j < n implies (#[trigger] self@[j]).0 != sender@ by {
                lemma_lex_ne(self@[j].0, sender@);
            }
            lemma_table_lookup_insert(old(self)@, n as int, sender@, text@);
            lemma_table_lookup_none(old(self)@, sender@);
        }
        self.entries.insert(n, (sender.to_owned(), text.to_owned()));
        proof {
            old(self)@.insert_ensures(n as int, (sender@, text@));
            assert(self@ =~= old(self)@.insert(n as int, (sender@, text@)));
            assert forall|a: int, b: int|
                0 <= a < b < self@.len() implies lex_lt(
                (#[trigger] self@[a]).0,
                (#[trigger] self@[b]).0,
            ) by {
                let u = old(self)@.insert(n as int, (sender@, text@));
                if b < n {
                    assert(u[a] == old(self)@[a] && u[b] == old(self)@[b]);
                } else {
                    assert(b == n);
                    assert(u[a] == old(self)@[a]);
                    assert(u[b].0 == sender@);
                }
            }
        }
    }
}

proof fn lemma_table_lookup_none(s: Seq<(Seq<char>, Seq<char>)>, k: Seq<char>)
    requires
        forall|j: int| 0 <= j < s.len() ==> (#[trigger] s[j]).0 != k,
    ensures
        table_lookup(s, k) is None,
    decreases s.len(),
{
    if s.len() > 0 {
        assert forall|j: int| 0 <= j < s.skip(1).len() implies (#[trigger] s.skip(1)[j]).0 != k by {
            assert(s.skip(1)[j] == s[j + 1]);
        }
        lemma_table_lookup_none(s.skip(1), k);
    }
}

/// One conversation's dedup state, as the monitor task owns it.
pub struct TelegramMonitor {
    pub last_seen: DedupCursor,
}

impl TelegramMonitor {
    /// A monitor that has seen no conversation yet.
    pub fn new() -> (r: Self)
        ensures
            r.last_seen.wf(),
            forall|k: i64| #[trigger] r.last_seen.cursor(k) is None,
    {
        TelegramMonitor { last_seen: DedupCursor::new() }
    }

    /// The decision for one polled conversation: a message from a targeted
    /// conversation that the dedup cursor accepts is forwarded as the pair
    /// of display sender (with a fallback when the peer has no name) and
    /// text with embedded line breaks collapsed to spaces.
    pub fn handle_dialog(
        &mut self,
        targets: &Vec<i64>,
        chat_id: i64,
        msg_id: i32,
        sender: Option<&str>,
        text: &str,
    ) -> (r: Option<(String, String)>)
        requires
            old(self).last_seen.wf(),
        ensures
            final(self).last_seen.wf(),
            (r is Some) == (targets@.contains(chat_id) && (match old(self).last_seen.cursor(
                chat_id,
            ) {
                Some(p) => msg_id > p,
                None => true,
            })),
            !targets@.contains(chat_id) ==> *final(self) == *old(self),
            r matches Some(m) ==> ({
                &&& m.0@ == (match sender {
                    Some(s) => s@,
                    None => "Unknown"@,
                })
                &&& m.1@ == replaced(text@, "\n"@, " "@)
                &&& final(self).last_seen.cursor(chat_id) == Some(msg_id)
            }),
            targets@.contains(chat_id) ==> observe_rel(
                old(self).last_seen,
                final(self).last_seen,
                chat_id,
                msg_id,
                r is Some,
            ),
            forall|k: i64|
                k != chat_id ==> final(self).last_seen.cursor(k) == old(self).last_seen.cursor(k),
    {
        if !contains_id(targets, chat_id) {
            return None;
        }
        let forward = self.last_seen.observe(chat_id, msg_id);
        if !forward {
            return None;
        }
        let name = match sender {
            Some(s) => s.to_owned(),
            None => String::from_str("Unknown"),
        };
        proof {
            reveal_strlit("\n");
        }
        let clean = replace_all(text, "\n", " ");
        Some((name, clean))
    }
}

/// Whether `id` occurs in `targets`.
fn contains_id(targets: &Vec<i64>, id: i64) -> (r: bool)
    ensures
        r == targets@.contains(id),
{
    let n = targets.len();
    let mut i: usize = 0;
    while i < n
        invariant
            0 <= i <= n,
            n == targets@.len(),
            forall|j: int| 0 <= j < i ==> targets@[j] != id,
        decreases n - i,
    {
        if targets[i] == id {
            assert(targets@.contains(id));
            return true;
        }
        i = i + 1;
    }
    proof {
        if targets@.contains(id) {
            let j = choose|j: int| 0 <= j < targets@.len() && targets@[j] == id;
            assert(targets@[j] != id);
        }
    }
    false
}

} // verus!
