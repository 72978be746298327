//! Line-by-line chunker that turns a streamed reply into bounded outgoing messages.
//!
//! The chunker keeps the text of the message in flight, decides after each line
//! whether to send an in-progress update (a soft flush), to finalize the message
//! (a seal) or to keep buffering, and keeps code fences balanced across seals.
use vstd::prelude::*;

verus! {

/// Default hard ceiling, in characters, of one outgoing message.
pub const MSG_MAX_LEN: usize = 4000;

/// Default size, in characters, of the unit of buffered text between soft flushes.
pub const MSG_CHUNK_LEN: usize = 500;

/// The fence marker that opens and closes a code block.
pub open spec fn guard() -> Seq<char> {
    seq!['`', '`', '`']
}

pub open spec fn newline() -> Seq<char> {
    seq!['\n']
}

/// A line that starts with the fence marker toggles the code block; the rest is its tag.
pub open spec fn is_fence(line: Seq<char>) -> bool {
    line.len() >= 3 && line.subrange(0, 3) == guard()
}

pub open spec fn fence_tag(line: Seq<char>) -> Seq<char> {
    line.subrange(3, line.len() as int)
}

/// The line that the chunker inserts to close a code block before a seal.
pub open spec fn close_fence() -> Seq<char> {
    guard() + newline()
}

/// The line that the chunker inserts to reopen a code block after a seal.
pub open spec fn open_fence(lang: Seq<char>) -> Seq<char> {
    guard() + lang + newline()
}

/// Room kept free in the buffer for the closing fence of an open code block.
pub open spec fn closing_reserve(in_code: bool) -> nat {
    if in_code {
        4
    } else {
        0
    }
}

/// The buffer as it is sealed: with its code block closed, if one is open.
pub open spec fn closed(buffer: Seq<char>, in_code: bool) -> Seq<char> {
    if in_code {
        buffer + close_fence()
    } else {
        buffer
    }
}

/// The state of the chunker, as plain values.
pub struct ChunkerModel {
    /// Text of the message in flight.
    pub buffer: Seq<char>,
    /// Text of the most recently sealed message.
    pub text: Seq<char>,
    /// Whether the last line handled sealed a message.
    pub complete: bool,
    /// Tag of the code block most recently opened.
    pub lang: Seq<char>,
    /// Whether a code block is open at the end of the buffer.
    pub in_code: bool,
    /// Number of units the buffer must reach before the next soft flush.
    pub goal: nat,
    /// Hard ceiling of one message.
    pub max_len: nat,
    /// Size of one soft-flush unit.
    pub chunk_len: nat,
    /// The fence line inserted at the start of the buffer after a seal (or nothing).
    pub reopened: Seq<char>,
}

/// What the chunker emits after a step.
pub enum Emitted {
    Continuing,
    SoftFlush(Seq<char>),
    Sealed(Seq<char>),
}

/// The model of a fresh chunker.
pub open spec fn initial_model(max_len: nat, chunk_len: nat) -> ChunkerModel {
    ChunkerModel {
        buffer: Seq::empty(),
        text: Seq::empty(),
        complete: false,
        lang: Seq::empty(),
        in_code: false,
        goal: 1,
        max_len,
        chunk_len,
        reopened: Seq::empty(),
    }
}

/// Whether appending `line`, its newline and the closing fence that the block
/// open after it would need, passes the ceiling.
pub open spec fn overflows(m: ChunkerModel, line: Seq<char>) -> bool {
    m.buffer.len() + line.len() + 1 + closing_reserve(m.in_code != is_fence(line)) > m.max_len
}

/// One line taken into the buffer: seal first where it overflows, then append.
pub open spec fn handle_model(m: ChunkerModel, line: Seq<char>) -> ChunkerModel {
    let over = overflows(m, line);
    let fence = is_fence(line);
    let prefix = if over && !fence && m.in_code {
        open_fence(m.lang)
    } else {
        Seq::<char>::empty()
    };
    ChunkerModel {
        buffer: if over {
            prefix + line + newline()
        } else {
            m.buffer + line + newline()
        },
        text: if over {
            closed(m.buffer, m.in_code)
        } else {
            m.text
        },
        complete: over,
        lang: if fence && !m.in_code {
            fence_tag(line)
        } else {
            m.lang
        },
        in_code: m.in_code != fence,
        reopened: if over {
            prefix
        } else {
            m.reopened
        },
        ..m
    }
}

/// Number of whole soft-flush units in the buffer.
pub open spec fn n_chunks(m: ChunkerModel) -> nat
    recommends
        m.chunk_len > 0,
{
    m.buffer.len() / m.chunk_len
}

/// One line of input: the new state and what is emitted.
pub open spec fn step_model(m: ChunkerModel, line: Seq<char>) -> (ChunkerModel, Emitted) {
    let h = handle_model(m, line);
    if h.complete {
        (ChunkerModel { goal: 1, ..h }, Emitted::Sealed(h.text))
    } else if n_chunks(h) >= h.goal {
        (ChunkerModel { goal: h.goal + 1, ..h }, Emitted::SoftFlush(h.buffer))
    } else {
        (h, Emitted::Continuing)
    }
}

/// The text of the last seal: the closed buffer without its final newline.
pub open spec fn final_text(m: ChunkerModel) -> Seq<char> {
    closed(m.buffer, m.in_code).drop_last()
}

/// End of input: a last seal where anything is buffered.
pub open spec fn finish_model(m: ChunkerModel) -> (ChunkerModel, Emitted) {
    if m.buffer.len() == 0 {
        (m, Emitted::Continuing)
    } else {
        (
            ChunkerModel {
                buffer: Seq::empty(),
                text: final_text(m),
                complete: true,
                goal: 1,
                reopened: Seq::empty(),
                ..m
            },
            Emitted::Sealed(final_text(m)),
        )
    }
}

/// What one step emits, as an owned value.
#[derive(Debug, PartialEq, Eq)]
pub enum ParserEvent {
    /// Nothing to send yet.
    Continuing,
    /// The message in flight, to be shown as it stands.
    SoftFlush(String),
    /// The message is final; the next one starts fresh.
    Sealed(String),
}

impl View for ParserEvent {
    type V = Emitted;

    open spec fn view(&self) -> Emitted {
        match self {
            ParserEvent::Continuing => Emitted::Continuing,
            ParserEvent::SoftFlush(s) => Emitted::SoftFlush(s@),
            ParserEvent::Sealed(s) => Emitted::Sealed(s@),
        }
    }
}

fn is_fence_line(line: &str) -> (r: bool)
    ensures
        r == is_fence(line@),
{
    let n = line.unicode_len();
    if n < 3 {
        return false;
    }
    let r = line.get_char(0) == '`' && line.get_char(1) == '`' && line.get_char(2) == '`';
    proof {
        if r {
            assert(line@.subrange(0, 3) =~= guard());
        } else {
            assert(!(line@.subrange(0, 3) =~= guard()) ==> line@.subrange(0, 3) != guard());
            assert(line@.subrange(0, 3)[0] == line@[0]);
            assert(line@.subrange(0, 3)[1] == line@[1]);
            assert(line@.subrange(0, 3)[2] == line@[2]);
        }
    }
    r
}

fn guard_string() -> (r: String)
    ensures
        r@ == guard(),
{
    proof {
        reveal_strlit("```");
    }
    String::from_str("```")
}

/// State of the chunker for one reply.
pub struct MessageParserState {
    /// Text of the message in flight.
    pub buffer: String,
    /// Text of the most recently sealed message.
    pub text: String,
    /// Whether the last line handled sealed a message.
    pub is_complete: bool,
    lang: String,
    is_in_code_block: bool,
    /// Units the buffer must hold before the next soft flush; wider than `usize`
    /// so that it can pass the largest unit count without overflow.
    chunk_goal_n: u128,
    max_len: usize,
    chunk_len: usize,
    reopened: Ghost<Seq<char>>,
}

impl View for MessageParserState {
    type V = ChunkerModel;

    closed spec fn view(&self) -> ChunkerModel {
        ChunkerModel {
            buffer: self.buffer@,
            text: self.text@,
            complete: self.is_complete,
            lang: self.lang@,
            in_code: self.is_in_code_block,
            goal: self.chunk_goal_n as nat,
            max_len: self.max_len as nat,
            chunk_len: self.chunk_len as nat,
            reopened: self.reopened@,
        }
    }
}

impl MessageParserState {
    /// The limits are usable and the soft-flush goal is in range.
    pub closed spec fn wf(&self) -> bool {
        &&& self.chunk_len > 0
        &&& 1 <= self.chunk_goal_n <= usize::MAX as u128 + 1
    }

    fn new(max_len: usize, chunk_len: usize) -> (r: MessageParserState)
        requires
            chunk_len > 0,
        ensures
            r.wf(),
            r@ == initial_model(max_len as nat, chunk_len as nat),
    {
        MessageParserState {
            buffer: String::new(),
            text: String::new(),
            is_complete: false,
            lang: String::new(),
            is_in_code_block: false,
            chunk_goal_n: 1,
            max_len,
            chunk_len,
            reopened: Ghost(Seq::empty()),
        }
    }

    /// Whether a code block is open at the end of the buffer.
    pub fn is_in_code_block(&self) -> (r: bool)
        ensures
            r == self@.in_code,
    {
        self.is_in_code_block
    }

    /// Whether `line` does not fit: see `overflows`.
    fn check_overflow(&self, line: &str) -> (r: bool)
        ensures
            r == overflows(self@, line@),
    {
        let reserve: u128 = if self.is_in_code_block != is_fence_line(line) {
            4
        } else {
            0
        };
        self.buffer.unicode_len() as u128 + line.unicode_len() as u128 + 1 + reserve
            > self.max_len as u128
    }

    fn get_n_chunks(&self) -> (r: usize)
        requires
            self.wf(),
        ensures
            r == n_chunks(self@),
    {
        self.buffer.unicode_len() / self.chunk_len
    }

    fn insert_line(&mut self, line: &str)
        ensures
            final(self)@ == (ChunkerModel {
                buffer: old(self)@.buffer + line@ + newline(),
                ..old(self)@
            }),
            final(self).wf() == old(self).wf(),
    {
        let ghost before = self@;
        proof {
            reveal_strlit("\n");
        }
        self.buffer.append(line);
        self.buffer.append("\n");
        proof {
            assert(self@.buffer =~= before.buffer + line@ + newline());
        }
    }

    fn finalize(&mut self)
        requires
            old(self).wf(),
        ensures
            final(self).wf(),
            final(self)@ == (ChunkerModel {
                buffer: Seq::empty(),
                text: closed(old(self)@.buffer, old(self)@.in_code),
                complete: true,
                ..old(self)@
            }),
    {
        let ghost before = self@;
        if self.is_in_code_block {
            let g = guard_string();
            self.insert_line(g.as_str());
            assert(self@.buffer =~= before.buffer + close_fence());
        }
        let mut sealed = String::new();
        std::mem::swap(&mut self.buffer, &mut sealed);
        self.text = sealed;
        self.is_complete = true;
    }

    fn handle(&mut self, line: &str)
        requires
            old(self).wf(),
        ensures
            final(self).wf(),
            final(self)@ == handle_model(old(self)@, line@),
    {
        let ghost m = self@;
        let fence = is_fence_line(line);
        let is_overflow = self.check_overflow(line);
        if is_overflow {
            self.finalize();
            self.reopened = Ghost(Seq::empty());
        } else {
            self.is_complete = false;
        }
        if fence {
            self.is_in_code_block = !self.is_in_code_block;
            if self.is_in_code_block {
                let n = line.unicode_len();
                self.lang = String::from_str(line.substring_char(3, n));
            }
        } else if is_overflow && self.is_in_code_block {
            let mut opener = guard_string();
            opener.append(self.lang.as_str());
            self.insert_line(opener.as_str());
            self.reopened = Ghost(open_fence(m.lang));
        }
        self.insert_line(line);
        proof {
            let h = handle_model(m, line@);
            assert(self@.buffer =~= h.buffer);
            assert(self@.reopened =~= h.reopened);
            assert(self@ == h);
        }
    }
}

/// The chunker: feed it the lines of a reply, then `None` at the end of input.
pub struct MessageParser {
    state: MessageParserState,
}

impl View for MessageParser {
    type V = ChunkerModel;

    closed spec fn view(&self) -> ChunkerModel {
        self.state@
    }
}

impl MessageParser {
    pub closed spec fn wf(&self) -> bool {
        self.state.wf()
    }

    /// A chunker with the default ceiling and unit.
    pub fn new() -> (r: MessageParser)
        ensures
            r.wf(),
            r@ == initial_model(MSG_MAX_LEN as nat, MSG_CHUNK_LEN as nat),
    {
        MessageParser { state: MessageParserState::new(MSG_MAX_LEN, MSG_CHUNK_LEN) }
    }

    /// A chunker with the given ceiling and soft-flush unit.
    pub fn with_limits(max_len: usize, chunk_len: usize) -> (r: MessageParser)
        requires
            chunk_len > 0,
        ensures
            r.wf(),
            r@ == initial_model(max_len as nat, chunk_len as nat),
    {
        MessageParser { state: MessageParserState::new(max_len, chunk_len) }
    }

    /// The current state, for inspection.
    pub fn state(&self) -> (r: &MessageParserState)
        ensures
            r@ == self@,
    {
        &self.state
    }

    /// Takes the next line of input (`None` at its end) and returns what to send.
    pub fn next_state(&mut self, line: Option<&str>) -> (r: ParserEvent)
        requires
            old(self).wf(),
        ensures
            final(self).wf(),
            match line {
                Some(l) => (final(self)@, r@) == step_model(old(self)@, l@),
                None => (final(self)@, r@) == finish_model(old(self)@),
            },
    {
        match line {
            Some(l) => {
                self.state.handle(l);
                if self.state.is_complete {
                    self.state.chunk_goal_n = 1;
                    ParserEvent::Sealed(self.state.text.clone())
                } else if self.state.get_n_chunks() as u128 >= self.state.chunk_goal_n {
                    self.state.chunk_goal_n = self.state.chunk_goal_n + 1;
                    ParserEvent::SoftFlush(self.state.buffer.clone())
                } else {
                    ParserEvent::Continuing
                }
            },
            None => {
                let n = self.state.buffer.unicode_len();
                if n == 0 {
                    return ParserEvent::Continuing;
                }
                self.state.finalize();
                let ghost m = self.state@;
                let k = self.state.text.unicode_len();
                let t = String::from_str(self.state.text.as_str().substring_char(0, k - 1));
                self.state.text = t;
                self.state.chunk_goal_n = 1;
                self.state.reopened = Ghost(Seq::empty());
                proof {
                    assert(self.state.text@ =~= m.text.drop_last());
                }
                ParserEvent::Sealed(self.state.text.clone())
            },
        }
    }
}

} // verus!
