//! Per-conversation history of turns, created on first use.
use std::collections::HashMap;
use vstd::prelude::*;

verus! {

broadcast use vstd::std_specs::hash::group_hash_axioms;

/// Who wrote a turn.
#[derive(Clone, Copy, PartialEq, Eq, Debug)]
pub enum Role {
    System,
    User,
    Assistant,
}

/// One message of a conversation.
#[derive(Clone, Debug, PartialEq, Eq)]
pub struct Turn {
    pub role: Role,
    pub content: String,
}

/// The turns of a conversation in `m`: none for an unknown conversation.
pub open spec fn turns_of(m: Map<i64, Seq<Turn>>, chat_id: i64) -> Seq<Turn> {
    if m.contains_key(chat_id) {
        m[chat_id]
    } else {
        Seq::empty()
    }
}

/// `m` with the conversation present, empty if it was not there before.
pub open spec fn created(m: Map<i64, Seq<Turn>>, chat_id: i64) -> Map<i64, Seq<Turn>> {
    if m.contains_key(chat_id) {
        m
    } else {
        m.insert(chat_id, Seq::empty())
    }
}

/// `m` with the conversation emptied, if it is there.
pub open spec fn cleared(m: Map<i64, Seq<Turn>>, chat_id: i64) -> Map<i64, Seq<Turn>> {
    if m.contains_key(chat_id) {
        m.insert(chat_id, Seq::empty())
    } else {
        m
    }
}

/// `m` with `turn` added at the end of the conversation.
pub open spec fn appended(m: Map<i64, Seq<Turn>>, chat_id: i64, turn: Turn) -> Map<i64, Seq<Turn>> {
    m.insert(chat_id, turns_of(m, chat_id).push(turn))
}

/// The turns of every conversation seen, keyed by conversation id.
pub struct History {
    messages: HashMap<i64, Vec<Turn>>,
}

impl View for History {
    type V = Map<i64, Seq<Turn>>;

    closed spec fn view(&self) -> Map<i64, Seq<Turn>> {
        self.messages@.map_values(|v: Vec<Turn>| v@)
    }
}

impl History {
    /// A history with no conversation.
    pub fn new() -> (r: History)
        ensures
            r@ == Map::<i64, Seq<Turn>>::empty(),
    {
        let r = History { messages: HashMap::new() };
        assert(r@ =~= Map::<i64, Seq<Turn>>::empty());
        r
    }

    /// The turns of a conversation, which is created empty on first use.
    pub fn get(&mut self, chat_id: i64) -> (r: &Vec<Turn>)
        ensures
            final(self)@ == created(old(self)@, chat_id),
            r@ == turns_of(final(self)@, chat_id),
    {
        if !self.messages.contains_key(&chat_id) {
            self.messages.insert(chat_id, Vec::new());
        }
        proof {
            assert(self@ =~= created(old(self)@, chat_id));
        }
        let r = self.messages.get(&chat_id).unwrap();
        r
    }

    /// Adds a turn at the end of a conversation, creating it if needed.
    pub fn append_turn(&mut self, chat_id: i64, turn: Turn)
        ensures
            final(self)@ == appended(old(self)@, chat_id, turn),
    {
        let ghost before = self@;
        let mut turns = match self.messages.remove(&chat_id) {
            Some(v) => v,
            None => Vec::new(),
        };
        turns.push(turn);
        self.messages.insert(chat_id, turns);
        proof {
            assert(self@ =~= appended(before, chat_id, turn));
        }
    }

    /// Empties a conversation; an unknown one is left unknown.
    pub fn clear(&mut self, chat_id: i64)
        ensures
            final(self)@ == cleared(old(self)@, chat_id),
    {
        if self.messages.contains_key(&chat_id) {
            self.messages.insert(chat_id, Vec::new());
        }
        proof {
            assert(self@ =~= cleared(old(self)@, chat_id));
        }
    }
}

/// After `clear`, a conversation reads as empty, whatever it held; clearing an
/// unknown conversation changes nothing.
pub proof fn lemma_clear_empties(m: Map<i64, Seq<Turn>>, chat_id: i64)
    ensures
        turns_of(cleared(m, chat_id), chat_id) == Seq::<Turn>::empty(),
        turns_of(created(cleared(m, chat_id), chat_id), chat_id) == Seq::<Turn>::empty(),
        !m.contains_key(chat_id) ==> cleared(m, chat_id) == m,
        forall|other: i64| other != chat_id ==> turns_of(cleared(m, chat_id), other) == turns_of(m, other),
{
}

} // verus!
