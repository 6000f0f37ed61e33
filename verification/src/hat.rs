//! The chat client's decisions: what it tells the network when the user sends a
//! message, and what it does with what the network reports.
use vstd::prelude::*;
use vstd::string::*;
use vstd::utf8::*;

use crate::chat::{Chat, ChatMessage, RoomId};
use crate::input_message::{string_views, InputEvent};
use crate::pane::{first_with_id, Direction, Pane, PaneId, PaneNode};
use crate::path::string_from_utf8;
use crate::state::{AddressBook, CurrentPersona, CurrentTopic};
use crate::text::{push_chars, str_to_chars};
use crate::window::Window;

verus! {

/// The root view of the client.
#[derive(Debug)]
pub struct Hat {}

/// What the client asks of the network.
#[derive(Debug, Clone, PartialEq)]
pub enum HatCommand {
    /// Join the room of a topic.
    JoinRoom { name: String },
    /// Send lines to a room, as `from`.
    SendRoomMessage { room: RoomId, from: String, message: Vec<String> },
    /// Ask a peer for its persona.
    RequestPersona { peer: String },
}

pub enum HatCommandView {
    JoinRoom { name: Seq<char> },
    SendRoomMessage { room: Seq<char>, from: Seq<char>, message: Seq<Seq<char>> },
    RequestPersona { peer: Seq<char> },
}

impl View for HatCommand {
    type V = HatCommandView;

    open spec fn view(&self) -> HatCommandView {
        match self {
            HatCommand::JoinRoom { name } => HatCommandView::JoinRoom { name: name@ },
            HatCommand::SendRoomMessage { room, from, message } => HatCommandView::SendRoomMessage {
                room: room.0@,
                from: from@,
                message: string_views(message@),
            },
            HatCommand::RequestPersona { peer } => HatCommandView::RequestPersona { peer: peer@ },
        }
    }
}

/// What the network reports to the client.
#[derive(Debug, Clone, PartialEq)]
pub enum HatEvent {
    /// The client left a room.
    RoomLeft { room: RoomId },
    /// A message arrived in a room.
    ChatMessageReceived { room: RoomId, message: ChatMessage },
    /// A peer told its persona.
    PersonaReceived { peer: String, persona: String },
    /// Anything else.
    Other,
}

/// What the gossipsub network layer is asked to do: publish a message on a topic.
#[derive(Debug, Clone, PartialEq)]
pub enum HatNetworkCommand {
    SendMessage { topic: String, message: Vec<u8> },
}

/// The lines joined into one text, a line feed between each two.
pub open spec fn joined_lines(lines: Seq<Seq<char>>) -> Seq<char>
    decreases lines.len(),
{
    if lines.len() == 0 {
        Seq::empty()
    } else if lines.len() == 1 {
        lines[0]
    } else {
        joined_lines(lines.drop_last()) + seq!['\n'] + lines.last()
    }
}

/// The text a network message carries: its bytes as UTF-8, or nothing where they
/// are not UTF-8.
pub open spec fn message_text_spec(data: Seq<u8>) -> Seq<char> {
    if valid_utf8(data) {
        decode_utf8(data)
    } else {
        Seq::empty()
    }
}

/// A leaf of the pane tree: the pane with the given id, showing `view`.
pub open spec fn pane_leaf<V>(id: u32, view: V) -> PaneNode<V, u32> {
    PaneNode::Leaf(Pane { id: PaneId(id), view })
}

/// The client's pane tree, its panes numbered from `first`: side by side (weights 5
/// and 1), a column and an empty pane; the column holds the info block over (weights
/// 1 and 6) a column of the chat over the input (weights 6 and 1). The info block
/// has id `first`, the input `first + 1`, the chat `first + 2`, the empty pane
/// `first + 5`.
pub open spec fn is_client_layout<V>(node: PaneNode<V, u32>, first: u32, info: V, chat: V, input: V, empty: V) -> bool {
    match node {
        PaneNode::Split { direction: Direction::Horizontal, children, weights } => {
            &&& weights@ == seq![5u32, 1u32]
            &&& children@.len() == 2
            &&& children@[1] == pane_leaf((first + 5) as u32, empty)
            &&& match children@[0] {
                PaneNode::Split { direction: Direction::Vertical, children: column, weights: cw } => {
                    &&& cw@ == seq![1u32, 6u32]
                    &&& column@.len() == 2
                    &&& column@[0] == pane_leaf(first, info)
                    &&& match column@[1] {
                        PaneNode::Split { direction: Direction::Vertical, children: body, weights: bw } => {
                            &&& bw@ == seq![6u32, 1u32]
                            &&& body@.len() == 2
                            &&& body@[0] == pane_leaf((first + 2) as u32, chat)
                            &&& body@[1] == pane_leaf((first + 1) as u32, input)
                        },
                        _ => false,
                    }
                },
                _ => false,
            }
        },
        _ => false,
    }
}

proof fn lemma_two_leaves<V>(a: PaneNode<V, u32>, b: PaneNode<V, u32>)
    ensures
        crate::pane::leaves_of(seq![a, b]) == a.leaves() + b.leaves(),
{
    let s = seq![a, b];
    assert(s.drop_last() =~= seq![a]);
    assert(seq![a].drop_last() =~= Seq::<PaneNode<V, u32>>::empty());
    assert(s.last() == b);
    assert(seq![a].last() == a);
    assert(crate::pane::leaves_of(Seq::<PaneNode<V, u32>>::empty()) == Seq::<Pane<V>>::empty());
    assert(crate::pane::leaves_of(seq![a]) =~= a.leaves());
}

impl Hat {
    pub fn new() -> (r: Hat)
        ensures
            r == (Hat {  }),
    {
        Hat {  }
    }

    /// Lays out the client's window: six fresh pane ids are handed out (info block,
    /// input, chat, then three for empty panes, the last of which is shown), the
    /// pane tree becomes the client's, and the input pane becomes active.
    pub fn lay_out<V>(window: &mut Window<V, u32>, info: V, chat: V, input: V, empty: V)
        requires
            old(window).next_pane_id + 6 <= u32::MAX,
        ensures
            ({
                let first = old(window).next_pane_id;
                &&& final(window).root matches Some(root) && is_client_layout(root, first, info, chat, input, empty)
                    && root.leaves() == seq![
                    Pane { id: PaneId(first), view: info },
                    Pane { id: PaneId((first + 2) as u32), view: chat },
                    Pane { id: PaneId((first + 1) as u32), view: input },
                    Pane { id: PaneId((first + 5) as u32), view: empty },
                ] && first_with_id(root.leaves(), PaneId((first + 1) as u32)) == Some(
                    Pane { id: PaneId((first + 1) as u32), view: input },
                )
                &&& final(window).active_pane == Some(PaneId((first + 1) as u32))
                &&& final(window).next_pane_id == first + 6
                &&& final(window).area == old(window).area
                &&& final(window).handle == old(window).handle
            }),
    {
        let info_id = window.next_pane_id();
        let input_id = window.next_pane_id();
        let chat_id = window.next_pane_id();
        let _first_empty = window.next_pane_id();
        let _second_empty = window.next_pane_id();
        let empty_id = window.next_pane_id();
        let ghost first = old(window).next_pane_id;
        let info_pane = Pane { id: info_id, view: info };
        let chat_pane = Pane { id: chat_id, view: chat };
        let input_pane = Pane { id: input_id, view: input };
        let empty_pane = Pane { id: empty_id, view: empty };
        let ghost panes = seq![info_pane, chat_pane, input_pane, empty_pane];
        let body: PaneNode<V, u32> = PaneNode::Split {
            direction: Direction::Vertical,
            children: vec![PaneNode::Leaf(chat_pane), PaneNode::Leaf(input_pane)],
            weights: vec![6, 1],
        };
        let column: PaneNode<V, u32> = PaneNode::Split {
            direction: Direction::Vertical,
            children: vec![PaneNode::Leaf(info_pane), body],
            weights: vec![1, 6],
        };
        let root: PaneNode<V, u32> = PaneNode::Split {
            direction: Direction::Horizontal,
            children: vec![column, PaneNode::Leaf(empty_pane)],
            weights: vec![5, 1],
        };
        proof {
            lemma_two_leaves(PaneNode::Leaf(chat_pane), PaneNode::Leaf(input_pane));
            lemma_two_leaves(PaneNode::Leaf(info_pane), body);
            lemma_two_leaves(column, PaneNode::Leaf(empty_pane));
            assert(body.leaves() =~= seq![chat_pane, input_pane]);
            assert(column.leaves() =~= seq![info_pane, chat_pane, input_pane]);
            assert(root.leaves() =~= panes);
            reveal_with_fuel(first_with_id, 4);
            assert(panes.drop_first() =~= seq![chat_pane, input_pane, empty_pane]);
            assert(panes.drop_first().drop_first() =~= seq![input_pane, empty_pane]);
        }
        window.root = Some(root);
        window.active_pane = Some(input_id);
    }

    /// The text of a message's bytes; bytes that are not UTF-8 give no text.
    pub fn message_text(data: Vec<u8>) -> (r: String)
        ensures
            r@ == message_text_spec(data@),
    {
        match string_from_utf8(data) {
            Some(s) => s,
            None => String::new(),
        }
    }

    /// The lines joined into one text, a line feed between each two.
    pub fn join_lines(lines: &Vec<String>) -> (r: String)
        ensures
            r@ == joined_lines(string_views(lines@)),
    {
        let mut r = String::new();
        let mut i: usize = 0;
        let ghost v = string_views(lines@);
        while i < lines.len()
            invariant
                i <= lines.len(),
                v == string_views(lines@),
                r@ == joined_lines(v.take(i as int)),
            decreases lines.len() - i,
        {
            proof {
                assert(v.take(i + 1).drop_last() =~= v.take(i as int));
            }
            if i > 0 {
                push_chars(&mut r, &vec!['\n']);
            }
            push_chars(&mut r, &str_to_chars(lines[i].as_str()));
            i = i + 1;
            proof {
                if i == 1 {
                    assert(r@ =~= v.take(1)[0]);
                }
            }
        }
        proof {
            assert(v.take(lines.len() as int) =~= v);
        }
        r
    }

    /// What the direct network layer is asked to do for a command: a message sent
    /// to a room is published on the room's topic as the UTF-8 bytes of its lines,
    /// joined by line feeds; other commands have no such form.
    pub fn network_command(cmd: &HatCommand) -> (r: Option<HatNetworkCommand>)
        ensures
            match cmd {
                HatCommand::SendRoomMessage { room, message, .. } => r matches Some(
                    HatNetworkCommand::SendMessage { topic, message: bytes },
                ) && topic@ == room.0@ && bytes@ == encode_utf8(joined_lines(string_views(message@))),
                _ => r is None,
            },
    {
        match cmd {
            HatCommand::SendRoomMessage { room, message, .. } => {
                let text = Self::join_lines(message);
                let bytes = text.as_str().as_bytes_vec();
                Some(HatNetworkCommand::SendMessage { topic: room.0.clone(), message: bytes })
            },
            _ => None,
        }
    }

    /// Enters our own persona in the address book, as the one shown for our peer id.
    pub fn register_self(book: &mut AddressBook, local_peer_id: String, persona: &CurrentPersona)
        requires
            old(book).wf(),
        ensures
            final(book).wf(),
            final(book)@ == old(book)@.inserted(local_peer_id@, persona.0@, true),
    {
        book.insert(local_peer_id, persona.0.clone(), true);
    }

    /// Joining the room of the current topic.
    pub fn join_command(topic: &CurrentTopic) -> (r: HatCommand)
        ensures
            r@ == (HatCommandView::JoinRoom { name: topic.0@ }),
    {
        HatCommand::JoinRoom { name: topic.0.clone() }
    }

    /// What a submitted message becomes: the lines sent to the current topic's room,
    /// from our peer id.
    pub fn on_submit(event: InputEvent, topic: &CurrentTopic, local_peer_id: &String) -> (r: HatCommand)
        ensures
            match event {
                InputEvent::Submit { data } => r@ == (HatCommandView::SendRoomMessage {
                    room: topic.0@,
                    from: local_peer_id@,
                    message: string_views(data@),
                }),
            },
    {
        match event {
            InputEvent::Submit { data } => HatCommand::SendRoomMessage {
                room: RoomId::room(&topic.0),
                from: local_peer_id.clone(),
                message: data,
            },
        }
    }

    /// Handles a network report: a message joins its room, and a sender the address
    /// book does not know is asked for its persona; a persona received enters the book
    /// as the one shown for its peer (unless it already has one).
    pub fn on_event(chat: &mut Chat, book: &mut AddressBook, event: HatEvent) -> (r: Option<HatCommand>)
        requires
            old(chat).wf(),
            old(book).wf(),
        ensures
            final(chat).wf(),
            final(book).wf(),
            final(chat).topic_spec() == old(chat).topic_spec(),
            final(chat).local_peer_spec() == old(chat).local_peer_spec(),
            match event {
                HatEvent::ChatMessageReceived { room, message } => {
                    &&& final(chat).messages_of(room.0@) == old(chat).messages_of(room.0@).push(message)
                    &&& forall|other: Seq<char>|
                        other != room.0@ ==> final(chat).messages_of(other) == old(chat).messages_of(other)
                    &&& final(book)@ == old(book)@
                    &&& if old(book)@.persona.contains_key(message.from@) {
                        r is None
                    } else {
                        r matches Some(c) && c@ == (HatCommandView::RequestPersona { peer: message.from@ })
                    }
                },
                HatEvent::PersonaReceived { peer, persona } => {
                    &&& forall|room: Seq<char>| final(chat).messages_of(room) == old(chat).messages_of(room)
                    &&& final(book)@ == old(book)@.inserted(peer@, persona@, true)
                    &&& r is None
                },
                _ => {
                    &&& forall|room: Seq<char>| final(chat).messages_of(room) == old(chat).messages_of(room)
                    &&& final(book)@ == old(book)@
                    &&& r is None
                },
            },
    {
        match event {
            HatEvent::ChatMessageReceived { room, message } => {
                let from = message.from.clone();
                chat.push_message(&room, message);
                if book.is_known(&from) {
                    None
                } else {
                    Some(HatCommand::RequestPersona { peer: from })
                }
            },
            HatEvent::PersonaReceived { peer, persona } => {
                book.insert(peer, persona, true);
                None
            },
            _ => None,
        }
    }
}

} // verus!
