//! The aggregator's state: the single snapshot the render loop owns, and
//! the transitions the merge loop applies — batch replacement, chat
//! upserts, the rotation tick, and the two keyboard commands.

use vstd::prelude::*;
use crate::chat::ChatTable;
use crate::feed::FeedItem;

verus! {

/// The number of fixed feed categories on the board.
pub const CATEGORY_COUNT: usize = 6;

/// Everything one frame is rendered from: the six category feeds, the
/// chat table, and the rotation offset.
pub struct DashboardSnapshot {
    pub feeds: Vec<Vec<FeedItem>>,
    pub chat: ChatTable,
    pub offset: usize,
}

impl DashboardSnapshot {
    /// There is one feed slot per category and the chat table is ordered.
    pub open spec fn wf(&self) -> bool {
        self.feeds@.len() == CATEGORY_COUNT && self.chat.wf()
    }

    /// The empty board: six empty categories, no chat, rotation at zero.
    pub fn new() -> (r: Self)
        ensures
            r.wf(),
            r.offset == 0,
            forall|i: int| 0 <= i < CATEGORY_COUNT ==> (#[trigger] r.feeds@[i])@.len() == 0,
            r.chat@.len() == 0,
    {
        let mut feeds: Vec<Vec<FeedItem>> = Vec::new();
        let mut i: usize = 0;
        while i < CATEGORY_COUNT
            invariant
                0 <= i <= CATEGORY_COUNT,
                feeds@.len() == i,
                forall|j: int| 0 <= j < i ==> (#[trigger] feeds@[j])@.len() == 0,
            decreases CATEGORY_COUNT - i,
        {
            feeds.push(Vec::new());
            i = i + 1;
        }
        DashboardSnapshot { feeds, chat: ChatTable::new(), offset: 0 }
    }

    /// A completed fetch batch replaces every category wholesale and
    /// restarts the rotation; the chat table is untouched.
    pub fn apply_feed_batch(&mut self, batch: Vec<Vec<FeedItem>>)
        requires
            old(self).wf(),
            batch@.len() == CATEGORY_COUNT,
        ensures
            final(self).wf(),
            final(self).feeds == batch,
            final(self).offset == 0,
            final(self).chat == old(self).chat,
    {
        self.feeds = batch;
        self.offset = 0;
    }

    /// A forwarded chat message is upserted: the sender's slot now holds
    /// this text, every other sender keeps theirs, feeds and rotation
    /// are untouched.
    pub fn apply_chat_message(&mut self, sender: &str, text: &str)
        requires
            old(self).wf(),
        ensures
            final(self).wf(),
            final(self).chat.message_for(sender@) == Some(text@),
            forall|k: Seq<char>|
                k != sender@ ==> final(self).chat.message_for(k) == old(self).chat.message_for(k),
            final(self).feeds == old(self).feeds,
            final(self).offset == old(self).offset,
    {
        self.chat.upsert(sender, text);
    }

    /// The fixed-interval tick advances the rotation offset by one,
    /// wrapping at the integer bound.
    pub fn on_tick(&mut self)
        requires
            old(self).wf(),
        ensures
            final(self).wf(),
            final(self).offset == (if old(self).offset == usize::MAX {
                0usize
            } else {
                (old(self).offset + 1) as usize
            }),
            final(self).feeds == old(self).feeds,
            final(self).chat == old(self).chat,
    {
        self.offset = if self.offset == usize::MAX {
            0
        } else {
            self.offset + 1
        };
    }
}

/// What one keyboard event means to the merge loop.
#[derive(Clone, Copy, PartialEq, Eq, Debug, Structural)]
pub enum KeyAction {
    /// Leave the dashboard.
    Quit,
    /// Trigger a manual re-fetch of all feed categories.
    Refresh,
    /// Anything else is ignored.
    Ignore,
}

/// The two bound keys: `q` quits and `r` refreshes; every other key is
/// ignored. Keyboard handling never fails.
pub fn handle_key(c: char) -> (r: KeyAction)
    ensures
        c == 'q' ==> r == KeyAction::Quit,
        c == 'r' ==> r == KeyAction::Refresh,
        c != 'q' && c != 'r' ==> r == KeyAction::Ignore,
{
    if c == 'q' {
        KeyAction::Quit
    } else if c == 'r' {
        KeyAction::Refresh
    } else {
        KeyAction::Ignore
    }
}

} // verus!
