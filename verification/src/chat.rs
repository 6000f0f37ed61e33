//! The chat pane: messages kept per room, and the lines that show them.
use vstd::prelude::*;
use vstd::string::*;
use vstd::utf8::*;

use crate::input_message::as_u16;
use crate::state::{AddressBook, CurrentTopic};

verus! {

/// A room of the chat, named by its topic.
#[derive(Debug, Clone, PartialEq, Eq)]
pub struct RoomId(pub String);

impl RoomId {
    /// The room of a topic.
    pub fn room(topic: &String) -> (r: RoomId)
        ensures
            r.0@ == topic@,
    {
        RoomId(topic.clone())
    }
}

/// One chat message: the sender's peer id, the lines sent and when (milliseconds
/// since the Unix epoch).
#[derive(Debug, Clone, PartialEq)]
pub struct ChatMessage {
    pub from: String,
    pub content: Vec<String>,
    pub ts_millis: u64,
}

/// The chat pane: the topic shown, the messages of each room in arrival order, and
/// our own peer id.
#[derive(Debug)]
pub struct Chat {
    topic: String,
    messages: Vec<(String, Vec<ChatMessage>)>,
    local_peer_id: String,
}

/// The messages of a room in a list of rooms; no messages for an unknown room.
pub open spec fn room_messages(rooms: Seq<(String, Vec<ChatMessage>)>, room: Seq<char>) -> Seq<ChatMessage>
    decreases rooms.len(),
{
    if rooms.len() == 0 {
        Seq::empty()
    } else if rooms.last().0@ == room {
        rooms.last().1@
    } else {
        room_messages(rooms.drop_last(), room)
    }
}

/// No room is listed twice.
pub open spec fn unique_rooms(rooms: Seq<(String, Vec<ChatMessage>)>) -> bool {
    forall|i: int, j: int| 0 <= i < j < rooms.len() ==> #[trigger] rooms[i].0@ != #[trigger] rooms[j].0@
}

impl Chat {
    pub closed spec fn topic_spec(&self) -> Seq<char> {
        self.topic@
    }

    pub closed spec fn local_peer_spec(&self) -> Seq<char> {
        self.local_peer_id@
    }

    /// The messages the chat holds for a room, in arrival order.
    pub closed spec fn messages_of(&self, room: Seq<char>) -> Seq<ChatMessage> {
        room_messages(self.messages@, room)
    }

    pub closed spec fn wf(&self) -> bool {
        unique_rooms(self.messages@)
    }

    /// An empty chat showing the current topic.
    pub fn new(local_peer_id: String, topic: &CurrentTopic) -> (r: Chat)
        ensures
            r.wf(),
            r.topic_spec() == topic.0@,
            r.local_peer_spec() == local_peer_id@,
            forall|room: Seq<char>| r.messages_of(room) == Seq::<ChatMessage>::empty(),
    {
        Chat { topic: topic.0.clone(), messages: Vec::new(), local_peer_id }
    }

    pub fn set_topic(&mut self, topic: String)
        ensures
            final(self).topic_spec() == topic@,
            final(self).local_peer_spec() == old(self).local_peer_spec(),
            forall|room: Seq<char>| final(self).messages_of(room) == old(self).messages_of(room),
            final(self).wf() == old(self).wf(),
    {
        self.topic = topic;
    }

    pub fn topic(&self) -> (r: &String)
        ensures
            r@ == self.topic_spec(),
    {
        &self.topic
    }

    fn find_room(&self, room: &RoomId) -> (r: Option<usize>)
        ensures
            match r {
                Some(i) => i < self.messages@.len() && self.messages@[i as int].0@ == room.0@,
                None => forall|j: int| 0 <= j < self.messages@.len() ==> #[trigger] self.messages@[j].0@ != room.0@,
            },
    {
        let mut i: usize = 0;
        while i < self.messages.len()
            invariant
                i <= self.messages.len(),
                forall|j: int| 0 <= j < i ==> #[trigger] self.messages@[j].0@ != room.0@,
            decreases self.messages.len() - i,
        {
            if self.messages[i].0 == room.0 {
                return Some(i);
            }
            i = i + 1;
        }
        None
    }

    /// Appends a message to a room's messages.
    pub fn push_message(&mut self, room: &RoomId, message: ChatMessage)
        requires
            old(self).wf(),
        ensures
            final(self).wf(),
            final(self).messages_of(room.0@) == old(self).messages_of(room.0@).push(message),
            forall|other: Seq<char>|
                other != room.0@ ==> final(self).messages_of(other) == old(self).messages_of(other),
            final(self).topic_spec() == old(self).topic_spec(),
            final(self).local_peer_spec() == old(self).local_peer_spec(),
    {
        let found = self.find_room(room);
        let ghost old_rooms = self.messages@;
        if let Some(i) = found {
            let (key, mut list) = self.messages.remove(i);
            list.push(message);
            self.messages.insert(i, (key, list));
            proof {
                lemma_room_messages_update(old_rooms, i as int, old_rooms);
                lemma_room_messages_update(old_rooms, i as int, self.messages@);
                assert(self.messages@[i as int].1@ =~= old_rooms[i as int].1@.push(message));
            }
        } else {
            self.messages.push((room.0.clone(), vec![message]));
            proof {
                lemma_room_messages_absent(old_rooms, room.0@);
                assert(self.messages@.drop_last() =~= old_rooms);
                assert(self.messages@[old_rooms.len() as int].1@ =~= seq![message]);
                assert(unique_rooms(self.messages@)) by {
                    assert forall|a: int, b: int| 0 <= a < b < self.messages@.len() implies #[trigger] self.messages@[a].0@
                        != #[trigger] self.messages@[b].0@ by {
                        assert(self.messages@[a] == old_rooms[a]);
                        if b < old_rooms.len() {
                            assert(self.messages@[b] == old_rooms[b]);
                        }
                    }
                }
            }
        }
    }
}

/// One line of the chat pane; `sender` is `Some(is_me)` on a message's header line
/// and `None` on the lines of its text.
#[derive(Debug, Clone, PartialEq)]
pub struct ChatLine {
    pub text: String,
    pub sender: Option<bool>,
}

pub struct ChatLineView {
    pub text: Seq<char>,
    pub sender: Option<bool>,
}

impl View for ChatLine {
    type V = ChatLineView;

    open spec fn view(&self) -> ChatLineView {
        ChatLineView { text: self.text@, sender: self.sender }
    }
}

pub open spec fn chat_line_views(v: Seq<ChatLine>) -> Seq<ChatLineView> {
    v.map_values(|l: ChatLine| l@)
}

/// Where the last four bytes of a peer id start.
pub open spec fn suffix_start(from: Seq<char>) -> int {
    let n = encode_utf8(from).len();
    if n >= 4 {
        n - 4
    } else {
        0
    }
}

/// The text of the last four bytes of a peer id.
pub open spec fn peer_suffix(from: Seq<char>) -> Seq<char> {
    decode_utf8(encode_utf8(from).subrange(suffix_start(from), encode_utf8(from).len() as int))
}

/// Whether the peer id can be cut four bytes before its end (it can where those bytes
/// start a character).
pub open spec fn suffix_cuts(from: Seq<char>) -> bool {
    is_char_boundary(encode_utf8(from), suffix_start(from))
}

/// A message's header line: `persona#suffix: time`, with `?` for an unknown persona.
pub open spec fn header_text(persona: Option<Seq<char>>, from: Seq<char>, time: Seq<char>) -> Seq<char> {
    (match persona {
        Some(p) => p,
        None => seq!['?'],
    }) + seq!['#'] + peer_suffix(from) + seq![':', ' '] + time
}

/// The pane's lines for the messages: for each, its header line, then its text lines.
pub open spec fn message_lines(
    msgs: Seq<ChatMessage>,
    local: Seq<char>,
    personas: Map<Seq<char>, Seq<char>>,
    times: Seq<Seq<char>>,
) -> Seq<ChatLineView>
    decreases msgs.len(),
{
    if msgs.len() == 0 {
        Seq::empty()
    } else {
        let m = msgs.last();
        let from = m.from@;
        let header = ChatLineView {
            text: header_text(
                if personas.contains_key(from) {
                    Some(personas[from])
                } else {
                    None
                },
                from,
                times[msgs.len() - 1],
            ),
            sender: Some(from == local),
        };
        message_lines(msgs.drop_last(), local, personas, times).push(header) + m.content@.map_values(
            |l: String| ChatLineView { text: l@, sender: None },
        )
    }
}

/// The pane's title: `chat/` and the topic.
pub open spec fn chat_title(topic: Seq<char>) -> Seq<char> {
    seq!['c', 'h', 'a', 't', '/'] + topic
}

/// How far the pane scrolls so that its last line shows: the line count (taken to
/// `u16`) less the height, or nothing.
pub open spec fn scroll_offset_spec(lines: int, height: u16) -> u16 {
    let n = as_u16(lines);
    if n >= height {
        (n - height) as u16
    } else {
        0
    }
}

pub fn scroll_offset(lines: usize, height: u16) -> (r: u16)
    ensures
        r == scroll_offset_spec(lines as int, height),
{
    let n = (lines % 0x10000) as u16;
    n.saturating_sub(height)
}

fn push_str_chars(s: &mut String, t: &str)
    ensures
        final(s)@ == old(s)@ + t@,
{
    s.append(t);
}

impl Chat {
    /// The pane's title.
    pub fn title(&self) -> (r: String)
        ensures
            r@ == chat_title(self.topic_spec()),
    {
        let mut r = String::new();
        push_str_chars(&mut r, "chat/");
        proof {
            reveal_strlit("chat/");
            assert(r@ =~= seq!['c', 'h', 'a', 't', '/']);
        }
        r.append(self.topic.as_str());
        r
    }

    /// The send times (milliseconds since the Unix epoch) of a room's messages, in order.
    pub fn room_timestamps(&self, topic: &String) -> (r: Vec<u64>)
        requires
            self.wf(),
        ensures
            r@.len() == self.messages_of(topic@).len(),
            forall|i: int| 0 <= i < r@.len() ==> r@[i] == #[trigger] self.messages_of(topic@)[i].ts_millis,
    {
        let room = RoomId::room(topic);
        let mut r: Vec<u64> = Vec::new();
        match self.find_room(&room) {
            None => {
                proof {
                    lemma_room_messages_absent(self.messages@, topic@);
                }
            },
            Some(k) => {
                proof {
                    lemma_room_messages_update(self.messages@, k as int, self.messages@);
                }
                let msgs = &self.messages[k].1;
                let mut i: usize = 0;
                while i < msgs.len()
                    invariant
                        i <= msgs.len(),
                        msgs@ == self.messages_of(topic@),
                        r@.len() == i,
                        forall|j: int| 0 <= j < i ==> r@[j] == #[trigger] msgs@[j].ts_millis,
                    decreases msgs.len() - i,
                {
                    r.push(msgs[i].ts_millis);
                    i = i + 1;
                }
            },
        }
        r
    }

    /// Whether every sender id in a topic's room can be cut four bytes before its
    /// end, as `render_lines` needs.
    pub fn senders_cut(&self, topic: &String) -> (r: bool)
        requires
            self.wf(),
        ensures
            r == forall|i: int|
                0 <= i < self.messages_of(topic@).len() ==> suffix_cuts(#[trigger] self.messages_of(topic@)[i].from@),
    {
        let room = RoomId::room(topic);
        match self.find_room(&room) {
            None => {
                proof {
                    lemma_room_messages_absent(self.messages@, topic@);
                }
                true
            },
            Some(k) => {
                proof {
                    lemma_room_messages_update(self.messages@, k as int, self.messages@);
                }
                let msgs = &self.messages[k].1;
                let mut i: usize = 0;
                while i < msgs.len()
                    invariant
                        i <= msgs.len(),
                        msgs@ == self.messages_of(topic@),
                        forall|j: int| 0 <= j < i ==> suffix_cuts(#[trigger] msgs@[j].from@),
                    decreases msgs.len() - i,
                {
                    let fs = msgs[i].from.as_str();
                    let n = fs.as_bytes().len();
                    let k = if n >= 4 {
                        n - 4
                    } else {
                        0
                    };
                    proof {
                        assert(fs.spec_bytes() == encode_utf8(msgs@[i as int].from@));
                    }
                    if !fs.is_char_boundary(k) {
                        return false;
                    }
                    i = i + 1;
                }
                true
            },
        }
    }

    /// The lines that show a topic's room: for each message its header line (with
    /// the sender's persona from the book and the formatted send time `times[i]`),
    /// then the lines of its text.
    pub fn render_lines(&self, topic: &String, book: &AddressBook, times: &Vec<String>) -> (r: Vec<ChatLine>)
        requires
            self.wf(),
            book.wf(),
            times@.len() == self.messages_of(topic@).len(),
            forall|i: int|
                0 <= i < self.messages_of(topic@).len() ==> suffix_cuts(
                    #[trigger] self.messages_of(topic@)[i].from@,
                ),
        ensures
            chat_line_views(r@) == message_lines(
                self.messages_of(topic@),
                self.local_peer_spec(),
                book@.persona,
                times@.map_values(|t: String| t@),
            ),
    {
        let room = RoomId::room(topic);
        let ghost tv = times@.map_values(|t: String| t@);
        let mut r: Vec<ChatLine> = Vec::new();
        match self.find_room(&room) {
            None => {
                proof {
                    lemma_room_messages_absent(self.messages@, topic@);
                    assert(chat_line_views(r@) =~= Seq::<ChatLineView>::empty());
                }
            },
            Some(k) => {
                proof {
                    lemma_room_messages_update(self.messages@, k as int, self.messages@);
                }
                let msgs = &self.messages[k].1;
                let mut i: usize = 0;
                proof {
                    assert(chat_line_views(r@) =~= Seq::<ChatLineView>::empty());
                    assert(msgs@.take(0) =~= Seq::<ChatMessage>::empty());
                }
                while i < msgs.len()
                    invariant
                        i <= msgs.len(),
                        msgs@ == self.messages_of(topic@),
                        times@.len() == msgs@.len(),
                        tv == times@.map_values(|t: String| t@),
                        book.wf(),
                        forall|j: int| 0 <= j < msgs@.len() ==> suffix_cuts(#[trigger] msgs@[j].from@),
                        chat_line_views(r@) == message_lines(msgs@.take(i as int), self.local_peer_spec(), book@.persona, tv),
                    decreases msgs.len() - i,
                {
                    let m = &msgs[i];
                    let persona = book.get(&m.from);
                    let header = header_line(persona, &m.from, &times[i]);
                    let is_me = m.from == self.local_peer_id;
                    let ghost before = chat_line_views(r@);
                    r.push(ChatLine { text: header, sender: Some(is_me) });
                    let mut j: usize = 0;
                    let ghost mid = chat_line_views(r@);
                    while j < m.content.len()
                        invariant
                            j <= m.content.len(),
                            chat_line_views(r@) == mid + m.content@.take(j as int).map_values(
                                |l: String| ChatLineView { text: l@, sender: None },
                            ),
                        decreases m.content.len() - j,
                    {
                        let ghost b2 = chat_line_views(r@);
                        r.push(ChatLine { text: m.content[j].clone(), sender: None });
                        j = j + 1;
                        proof {
                            assert(chat_line_views(r@) =~= b2.push(ChatLineView { text: m.content@[j - 1]@, sender: None }));
                            assert(m.content@.take(j as int) =~= m.content@.take(j - 1).push(m.content@[j - 1]));
                            assert(m.content@.take(j as int).map_values(|l: String| ChatLineView { text: l@, sender: None })
                                =~= m.content@.take(j - 1).map_values(|l: String| ChatLineView { text: l@, sender: None }).push(
                                ChatLineView { text: m.content@[j - 1]@, sender: None },
                            ));
                        }
                    }
                    i = i + 1;
                    proof {
                        assert(m.content@.take(j as int) =~= m.content@);
                        let pre = msgs@.take(i as int);
                        assert(pre.drop_last() =~= msgs@.take(i - 1));
                        assert(pre.last() == *m);
                        assert(pre.len() - 1 == i - 1);
                        assert(tv[i - 1] == times@[i - 1]@);
                        assert(mid =~= before.push(ChatLineView { text: header_text(
                            if book@.persona.contains_key(m.from@) { Some(book@.persona[m.from@]) } else { None },
                            m.from@,
                            tv[i - 1],
                        ), sender: Some(m.from@ == self.local_peer_spec()) }));
                    }
                }
                proof {
                    assert(msgs@.take(msgs.len() as int) =~= msgs@);
                }
            },
        }
        r
    }
}

pub open spec fn persona_text(persona: Option<String>) -> Seq<char> {
    match persona {
        Some(p) => p@,
        None => seq!['?'],
    }
}

fn header_line(persona: Option<String>, from: &String, time: &String) -> (r: String)
    requires
        suffix_cuts(from@),
    ensures
        r@ == header_text(
            match persona {
                Some(p) => Some(p@),
                None => None,
            },
            from@,
            time@,
        ),
{
    let ghost pv = persona_text(persona);
    let mut r = match persona {
        Some(p) => p,
        None => {
            let mut q = String::new();
            crate::text::string_push(&mut q, '?');
            q
        },
    };
    assert(r@ =~= pv);
    crate::text::string_push(&mut r, '#');
    let fs = from.as_str();
    let n = fs.as_bytes().len();
    let k = if n >= 4 {
        n - 4
    } else {
        0
    };
    proof {
        assert(fs@ == from@);
        assert(fs.spec_bytes() == encode_utf8(from@));
        assert(n == encode_utf8(from@).len());
        assert(k == suffix_start(from@));
    }
    let (_, suffix) = fs.split_at(k);
    proof {
        encode_utf8_decode_utf8(suffix@);
        assert(suffix.spec_bytes() == encode_utf8(suffix@));
        assert(suffix.spec_bytes() =~= encode_utf8(from@).subrange(k as int, n as int));
        assert(suffix@ == peer_suffix(from@));
    }
    r.append(suffix);
    crate::text::string_push(&mut r, ':');
    crate::text::string_push(&mut r, ' ');
    r.append(time.as_str());
    proof {
        assert(r@ =~= pv + seq!['#'] + peer_suffix(from@) + seq![':', ' '] + time@);
    }
    r
}

pub proof fn lemma_room_messages_absent(rooms: Seq<(String, Vec<ChatMessage>)>, room: Seq<char>)
    requires
        forall|j: int| 0 <= j < rooms.len() ==> #[trigger] rooms[j].0@ != room,
    ensures
        room_messages(rooms, room) == Seq::<ChatMessage>::empty(),
    decreases rooms.len(),
{
    if rooms.len() > 0 {
        assert(rooms[rooms.len() - 1].0@ != room);
        assert forall|j: int| 0 <= j < rooms.drop_last().len() implies #[trigger] rooms.drop_last()[j].0@ != room by {
            assert(rooms.drop_last()[j] == rooms[j]);
        }
        lemma_room_messages_absent(rooms.drop_last(), room);
    }
}

pub proof fn lemma_room_messages_update(
    rooms: Seq<(String, Vec<ChatMessage>)>,
    i: int,
    updated: Seq<(String, Vec<ChatMessage>)>,
)
    requires
        unique_rooms(rooms),
        0 <= i < rooms.len(),
        updated.len() == rooms.len(),
        updated[i].0@ == rooms[i].0@,
        forall|j: int| 0 <= j < rooms.len() && j != i ==> #[trigger] updated[j] == rooms[j],
    ensures
        unique_rooms(updated),
        room_messages(updated, rooms[i].0@) == updated[i].1@,
        forall|other: Seq<char>|
            other != rooms[i].0@ ==> room_messages(updated, other) == room_messages(rooms, other),
    decreases rooms.len(),
{
    assert(unique_rooms(updated)) by {
        assert forall|a: int, b: int| 0 <= a < b < updated.len() implies #[trigger] updated[a].0@ != #[trigger] updated[b].0@ by {
            if a != i {
                assert(updated[a] == rooms[a]);
            }
            if b != i {
                assert(updated[b] == rooms[b]);
            }
        }
    }
    let n = rooms.len();
    if i == n - 1 {
        assert(updated.drop_last() =~= rooms.drop_last());
        assert forall|other: Seq<char>| other != rooms[i].0@ implies room_messages(updated, other)
            == room_messages(rooms, other) by {}
    } else {
        let d = rooms.drop_last();
        assert(unique_rooms(d)) by {
            assert forall|a: int, b: int| 0 <= a < b < d.len() implies #[trigger] d[a].0@ != #[trigger] d[b].0@ by {
                assert(d[a] == rooms[a]);
                assert(d[b] == rooms[b]);
            }
        }
        assert(updated.drop_last()[i] == updated[i]);
        assert forall|j: int| 0 <= j < d.len() && j != i implies #[trigger] updated.drop_last()[j] == d[j] by {
            assert(updated.drop_last()[j] == updated[j]);
        }
        lemma_room_messages_update(d, i, updated.drop_last());
        assert(d[i] == rooms[i]);
        assert(updated[n - 1] == rooms[n - 1]);
        assert(rooms[n - 1].0@ != rooms[i].0@);
        assert forall|other: Seq<char>| other != rooms[i].0@ implies room_messages(updated, other)
            == room_messages(rooms, other) by {
            assert(updated.last() == rooms.last());
            if rooms.last().0@ != other {
                assert(room_messages(updated.drop_last(), other) == room_messages(d, other));
            }
        }
    }
}

} // verus!
