//! The messages placed on the gossip channel and on direct streams, and
//! their compact binary encoding.
//!
//! Integers and lengths are written as variable-length integers, texts as
//! their UTF-8 length followed by their UTF-8 bytes, an optional text as a
//! zero byte or a one byte followed by the text, a list as its count followed
//! by its items. A gossip message starts with its kind: zero for an
//! announcement, one for a leave notice. Metadata in which a key appears
//! twice is refused when decoding.
use vstd::prelude::*;
use crate::text::{
    keys_unique,
    lemma_opt_text_extend, lemma_opt_text_round_trip, lemma_pairs_extend, lemma_pairs_round_trip,
    lemma_text_extend, lemma_text_round_trip, lemma_texts_extend, lemma_texts_round_trip,
    opt_text_bytes, opt_text_view, pairs_bytes, pairs_fit, pairs_view, parse_opt_text,
    parse_pairs, parse_text, parse_texts, read_opt_text, read_pairs, read_text, read_texts,
    text_bytes, text_fits, texts_bytes, texts_fit, texts_view, write_opt_text, write_pairs,
    write_text, write_texts,
};
use crate::varint::{
    lemma_varint_extend, lemma_varint_round_trip, parse_varint, read_varint, varint_bytes,
    write_varint, VARINT_MAX_BYTES,
};

verus! {

/// Presence record that a node broadcasts on the gossip channel.
#[derive(Debug, Clone, PartialEq, Eq)]
pub struct BotAnnouncement {
    pub node_id: String,
    pub name: String,
    pub version: String,
    pub capabilities: Vec<String>,
    pub openclaw_version: Option<String>,
    pub mode: Option<String>,
    pub timestamp: u64,
    pub ttl: u64,
    /// Key and value pairs, in order.
    pub metadata: Vec<(String, String)>,
}

/// The only kind of value placed on the gossip channel.
#[derive(Debug, Clone, PartialEq, Eq)]
pub enum GossipMessage {
    Announce(BotAnnouncement),
    Leave { node_id: String, timestamp: u64 },
}

/// A message over a direct stream, used both for a request and for its
/// acknowledgment.
#[derive(Debug, Clone, PartialEq, Eq)]
pub struct DirectMessage {
    pub from: String,
    pub content: String,
    pub timestamp: u64,
}

/// The input could not be read as a message: it ends too early, holds a byte
/// that the encoding does not allow, or has bytes left after the message.
#[derive(Debug, Clone, Copy, PartialEq, Eq)]
pub struct DecodeError;

/// What an announcement holds, as mathematical values.
pub ghost struct AnnouncementView {
    pub node_id: Seq<char>,
    pub name: Seq<char>,
    pub version: Seq<char>,
    pub capabilities: Seq<Seq<char>>,
    pub openclaw_version: Option<Seq<char>>,
    pub mode: Option<Seq<char>>,
    pub timestamp: u64,
    pub ttl: u64,
    pub metadata: Seq<(Seq<char>, Seq<char>)>,
}

/// What a gossip message holds, as mathematical values.
pub ghost enum GossipView {
    Announce(AnnouncementView),
    Leave { node_id: Seq<char>, timestamp: u64 },
}

/// What a direct message holds, as mathematical values.
pub ghost struct DirectView {
    pub from: Seq<char>,
    pub content: Seq<char>,
    pub timestamp: u64,
}

impl View for BotAnnouncement {
    type V = AnnouncementView;

    open spec fn view(&self) -> AnnouncementView {
        AnnouncementView {
            node_id: self.node_id@,
            name: self.name@,
            version: self.version@,
            capabilities: texts_view(self.capabilities@),
            openclaw_version: opt_text_view(self.openclaw_version),
            mode: opt_text_view(self.mode),
            timestamp: self.timestamp,
            ttl: self.ttl,
            metadata: pairs_view(self.metadata@),
        }
    }
}

impl View for GossipMessage {
    type V = GossipView;

    open spec fn view(&self) -> GossipView {
        match self {
            GossipMessage::Announce(a) => GossipView::Announce(a@),
            GossipMessage::Leave { node_id, timestamp } => GossipView::Leave {
                node_id: node_id@,
                timestamp: *timestamp,
            },
        }
    }
}

impl View for DirectMessage {
    type V = DirectView;

    open spec fn view(&self) -> DirectView {
        DirectView { from: self.from@, content: self.content@, timestamp: self.timestamp }
    }
}

/// The texts and lists of an announcement are small enough to be encoded
/// (their lengths fit in 64 bits), as those of any value in memory are.
pub open spec fn announcement_fits(v: AnnouncementView) -> bool {
    &&& text_fits(v.node_id)
    &&& text_fits(v.name)
    &&& text_fits(v.version)
    &&& texts_fit(v.capabilities)
    &&& v.capabilities.len() <= u64::MAX
    &&& (v.openclaw_version matches Some(s) ==> text_fits(s))
    &&& (v.mode matches Some(s) ==> text_fits(s))
    &&& pairs_fit(v.metadata)
    &&& v.metadata.len() <= u64::MAX
}

/// An announcement that decoding gives back: it fits, and no metadata key
/// appears twice.
pub open spec fn announcement_valid(v: AnnouncementView) -> bool {
    announcement_fits(v) && keys_unique(v.metadata)
}

pub open spec fn direct_fits(v: DirectView) -> bool {
    text_fits(v.from) && text_fits(v.content)
}

pub open spec fn gossip_fits(m: GossipView) -> bool {
    match m {
        GossipView::Announce(a) => announcement_fits(a),
        GossipView::Leave { node_id, timestamp } => text_fits(node_id),
    }
}

/// A gossip message that decoding gives back.
pub open spec fn gossip_valid(m: GossipView) -> bool {
    match m {
        GossipView::Announce(a) => announcement_valid(a),
        GossipView::Leave { node_id, timestamp } => text_fits(node_id),
    }
}

/// An announcement: its fields in order.
pub open spec fn announcement_bytes(v: AnnouncementView) -> Seq<u8> {
    text_bytes(v.node_id) + (text_bytes(v.name) + (text_bytes(v.version) + (texts_bytes(
        v.capabilities,
    ) + (opt_text_bytes(v.openclaw_version) + (opt_text_bytes(v.mode) + (varint_bytes(
        v.timestamp as nat,
    ) + (varint_bytes(v.ttl as nat) + pairs_bytes(v.metadata))))))))
}

/// Reads an announcement at position `i` of `b`: its fields in order.
pub open spec fn parse_announcement(b: Seq<u8>, i: int) -> Option<(AnnouncementView, int)> {
    match parse_text(b, i) {
        None => None,
        Some((f0, j0)) => match parse_text(b, j0) {
            None => None,
            Some((f1, j1)) => match parse_text(b, j1) {
                None => None,
                Some((f2, j2)) => match parse_texts(b, j2) {
                    None => None,
                    Some((f3, j3)) => match parse_opt_text(b, j3) {
                        None => None,
                        Some((f4, j4)) => match parse_opt_text(b, j4) {
                            None => None,
                            Some((f5, j5)) => match parse_varint(b, j5, VARINT_MAX_BYTES as nat) {
                                None => None,
                                Some((f6, j6)) => match parse_varint(b, j6, VARINT_MAX_BYTES as nat) {
                                    None => None,
                                    Some((f7, j7)) => match parse_pairs(b, j7) {
                                        None => None,
                                        Some((f8, j8)) => Some((
                                            AnnouncementView {
                                                node_id: f0,
                                                name: f1,
                                                version: f2,
                                                capabilities: f3,
                                                openclaw_version: f4,
                                                mode: f5,
                                                timestamp: f6 as u64,
                                                ttl: f7 as u64,
                                                metadata: f8,
                                            },
                                            j8,
                                        )),
                                    },
                                },
                            },
                        },
                    },
                },
            },
        },
    }
}

#[verifier::rlimit(100)]
proof fn lemma_announcement_round_trip(pre: Seq<u8>, v: AnnouncementView, rest: Seq<u8>)
    requires
        announcement_valid(v),
    ensures
        parse_announcement(pre + announcement_bytes(v) + rest, pre.len() as int) == Some(
            (v, (pre.len() + announcement_bytes(v).len()) as int),
        ),
{
    let e0 = text_bytes(v.node_id);
    let e1 = text_bytes(v.name);
    let e2 = text_bytes(v.version);
    let e3 = texts_bytes(v.capabilities);
    let e4 = opt_text_bytes(v.openclaw_version);
    let e5 = opt_text_bytes(v.mode);
    let e6 = varint_bytes(v.timestamp as nat);
    let e7 = varint_bytes(v.ttl as nat);
    let e8 = pairs_bytes(v.metadata);
    let t8 = e8;
    let t7 = e7 + t8;
    let t6 = e6 + t7;
    let t5 = e5 + t6;
    let t4 = e4 + t5;
    let t3 = e3 + t4;
    let t2 = e2 + t3;
    let t1 = e1 + t2;
    let t0 = e0 + t1;
    let b = pre + announcement_bytes(v) + rest;
    let p0 = pre;
    let p1 = p0 + e0;
    let p2 = p1 + e1;
    let p3 = p2 + e2;
    let p4 = p3 + e3;
    let p5 = p4 + e4;
    let p6 = p5 + e5;
    let p7 = p6 + e6;
    let p8 = p7 + e7;
    assert(b =~= p0 + (t0 + rest));
    assert(parse_text(b, p0.len() as int) == Some((v.node_id, (p0.len() + e0.len()) as int))) by {
        assert(b =~= p0 + e0 + (t1 + rest));
        lemma_text_round_trip(p0, v.node_id, (t1 + rest));
    }
    assert(b =~= p1 + (t1 + rest));
    assert(parse_text(b, p1.len() as int) == Some((v.name, (p1.len() + e1.len()) as int))) by {
        assert(b =~= p1 + e1 + (t2 + rest));
        lemma_text_round_trip(p1, v.name, (t2 + rest));
    }
    assert(b =~= p2 + (t2 + rest));
    assert(parse_text(b, p2.len() as int) == Some((v.version, (p2.len() + e2.len()) as int))) by {
        assert(b =~= p2 + e2 + (t3 + rest));
        lemma_text_round_trip(p2, v.version, (t3 + rest));
    }
    assert(b =~= p3 + (t3 + rest));
    assert(parse_texts(b, p3.len() as int) == Some((v.capabilities, (p3.len() + e3.len()) as int))) by {
        assert(b =~= p3 + e3 + (t4 + rest));
        lemma_texts_round_trip(p3, v.capabilities, (t4 + rest));
    }
    assert(b =~= p4 + (t4 + rest));
    assert(parse_opt_text(b, p4.len() as int) == Some((v.openclaw_version, (p4.len() + e4.len()) as int))) by {
        assert(b =~= p4 + e4 + (t5 + rest));
        lemma_opt_text_round_trip(p4, v.openclaw_version, (t5 + rest));
    }
    assert(b =~= p5 + (t5 + rest));
    assert(parse_opt_text(b, p5.len() as int) == Some((v.mode, (p5.len() + e5.len()) as int))) by {
        assert(b =~= p5 + e5 + (t6 + rest));
        lemma_opt_text_round_trip(p5, v.mode, (t6 + rest));
    }
    assert(b =~= p6 + (t6 + rest));
    assert(parse_varint(b, p6.len() as int, VARINT_MAX_BYTES as nat) == Some((v.timestamp as nat, (p6.len() + e6.len()) as int))) by {
        assert(b =~= p6 + e6 + (t7 + rest));
        lemma_varint_round_trip(p6, v.timestamp as nat, (t7 + rest));
    }
    assert(b =~= p7 + (t7 + rest));
    assert(parse_varint(b, p7.len() as int, VARINT_MAX_BYTES as nat) == Some((v.ttl as nat, (p7.len() + e7.len()) as int))) by {
        assert(b =~= p7 + e7 + (t8 + rest));
        lemma_varint_round_trip(p7, v.ttl as nat, (t8 + rest));
    }
    assert(b =~= p8 + (t8 + rest));
    assert(parse_pairs(b, p8.len() as int) == Some((v.metadata, (p8.len() + e8.len()) as int))) by {
        assert(b =~= p8 + e8 + rest);
        lemma_pairs_round_trip(p8, v.metadata, rest);
    }
}

proof fn lemma_announcement_extend(b: Seq<u8>, i: int, more: Seq<u8>)
    requires
        parse_announcement(b, i) is Some,
    ensures
        parse_announcement(b + more, i) == parse_announcement(b, i),
        match parse_announcement(b, i) {
            Some((v, j)) => i < j <= b.len(),
            None => true,
        },
{
    lemma_text_extend(b, i, more);
    let (f0, j0) = parse_text(b, i)->0;
    lemma_text_extend(b, j0, more);
    let (f1, j1) = parse_text(b, j0)->0;
    lemma_text_extend(b, j1, more);
    let (f2, j2) = parse_text(b, j1)->0;
    lemma_texts_extend(b, j2, more);
    let (f3, j3) = parse_texts(b, j2)->0;
    lemma_opt_text_extend(b, j3, more);
    let (f4, j4) = parse_opt_text(b, j3)->0;
    lemma_opt_text_extend(b, j4, more);
    let (f5, j5) = parse_opt_text(b, j4)->0;
    lemma_varint_extend(b, j5, VARINT_MAX_BYTES as nat, more);
    let (f6, j6) = parse_varint(b, j5, VARINT_MAX_BYTES as nat)->0;
    lemma_varint_extend(b, j6, VARINT_MAX_BYTES as nat, more);
    let (f7, j7) = parse_varint(b, j6, VARINT_MAX_BYTES as nat)->0;
    lemma_pairs_extend(b, j7, more);
    let (f8, j8) = parse_pairs(b, j7)->0;
}

/// Reads an announcement: its fields in order at position `pos` of `b`.
fn read_announcement(b: &[u8], pos: usize) -> (r: Option<(BotAnnouncement, usize)>)
    requires
        pos <= b@.len(),
    ensures
        match parse_announcement(b@, pos as int) {
            Some((v, j)) => r matches Some((x, p)) && x@ == v && p == j,
            None => r is None,
        },
        r matches Some((x, p)) ==> p <= b@.len(),
{
    let (f0, p0) = match read_text(b, pos) {
        Some(x) => x,
        None => {
            return None;
        },
    };
    let (f1, p1) = match read_text(b, p0) {
        Some(x) => x,
        None => {
            return None;
        },
    };
    let (f2, p2) = match read_text(b, p1) {
        Some(x) => x,
        None => {
            return None;
        },
    };
    let (f3, p3) = match read_texts(b, p2) {
        Some(x) => x,
        None => {
            return None;
        },
    };
    let (f4, p4) = match read_opt_text(b, p3) {
        Some(x) => x,
        None => {
            return None;
        },
    };
    let (f5, p5) = match read_opt_text(b, p4) {
        Some(x) => x,
        None => {
            return None;
        },
    };
    let (f6, p6) = match read_varint(b, p5) {
        Some(x) => x,
        None => {
            return None;
        },
    };
    let (f7, p7) = match read_varint(b, p6) {
        Some(x) => x,
        None => {
            return None;
        },
    };
    let (f8, p8) = match read_pairs(b, p7) {
        Some(x) => x,
        None => {
            return None;
        },
    };
    let x = BotAnnouncement { node_id: f0, name: f1, version: f2, capabilities: f3, openclaw_version: f4, mode: f5, timestamp: f6, ttl: f7, metadata: f8 };
    Some((x, p8))
}

/// Appends the bytes of an announcement: its fields in order.
#[verifier::rlimit(100)]
fn write_announcement(out: &mut Vec<u8>, v: &BotAnnouncement)
    ensures
        final(out)@ == old(out)@ + announcement_bytes(v@),
        announcement_fits(v@),
{
    let ghost start = out@;
    write_text(out, &v.node_id);
    write_text(out, &v.name);
    write_text(out, &v.version);
    write_texts(out, &v.capabilities);
    write_opt_text(out, &v.openclaw_version);
    write_opt_text(out, &v.mode);
    write_varint(out, v.timestamp);
    write_varint(out, v.ttl);
    write_pairs(out, &v.metadata);
    assert(out@ =~= start + announcement_bytes(v@));
}

/// A direct message: its fields in order.
pub open spec fn direct_bytes(v: DirectView) -> Seq<u8> {
    text_bytes(v.from) + (text_bytes(v.content) + varint_bytes(v.timestamp as nat))
}

/// Reads a direct message at position `i` of `b`: its fields in order.
pub open spec fn parse_direct(b: Seq<u8>, i: int) -> Option<(DirectView, int)> {
    match parse_text(b, i) {
        None => None,
        Some((f0, j0)) => match parse_text(b, j0) {
            None => None,
            Some((f1, j1)) => match parse_varint(b, j1, VARINT_MAX_BYTES as nat) {
                None => None,
                Some((f2, j2)) => Some((
                    DirectView {
                        from: f0,
                        content: f1,
                        timestamp: f2 as u64,
                    },
                    j2,
                )),
            },
        },
    }
}

proof fn lemma_direct_round_trip_at(pre: Seq<u8>, v: DirectView, rest: Seq<u8>)
    requires
        direct_fits(v),
    ensures
        parse_direct(pre + direct_bytes(v) + rest, pre.len() as int) == Some(
            (v, (pre.len() + direct_bytes(v).len()) as int),
        ),
{
    let e0 = text_bytes(v.from);
    let e1 = text_bytes(v.content);
    let e2 = varint_bytes(v.timestamp as nat);
    let t2 = e2;
    let t1 = e1 + t2;
    let t0 = e0 + t1;
    let b = pre + direct_bytes(v) + rest;
    let p0 = pre;
    let p1 = p0 + e0;
    let p2 = p1 + e1;
    assert(b =~= p0 + (t0 + rest));
    assert(parse_text(b, p0.len() as int) == Some((v.from, (p0.len() + e0.len()) as int))) by {
        assert(b =~= p0 + e0 + (t1 + rest));
        lemma_text_round_trip(p0, v.from, (t1 + rest));
    }
    assert(b =~= p1 + (t1 + rest));
    assert(parse_text(b, p1.len() as int) == Some((v.content, (p1.len() + e1.len()) as int))) by {
        assert(b =~= p1 + e1 + (t2 + rest));
        lemma_text_round_trip(p1, v.content, (t2 + rest));
    }
    assert(b =~= p2 + (t2 + rest));
    assert(parse_varint(b, p2.len() as int, VARINT_MAX_BYTES as nat) == Some((v.timestamp as nat, (p2.len() + e2.len()) as int))) by {
        assert(b =~= p2 + e2 + rest);
        lemma_varint_round_trip(p2, v.timestamp as nat, rest);
    }
}

proof fn lemma_direct_extend(b: Seq<u8>, i: int, more: Seq<u8>)
    requires
        parse_direct(b, i) is Some,
    ensures
        parse_direct(b + more, i) == parse_direct(b, i),
        match parse_direct(b, i) {
            Some((v, j)) => i < j <= b.len(),
            None => true,
        },
{
    lemma_text_extend(b, i, more);
    let (f0, j0) = parse_text(b, i)->0;
    lemma_text_extend(b, j0, more);
    let (f1, j1) = parse_text(b, j0)->0;
    lemma_varint_extend(b, j1, VARINT_MAX_BYTES as nat, more);
    let (f2, j2) = parse_varint(b, j1, VARINT_MAX_BYTES as nat)->0;
}

/// Reads a direct message: its fields in order at position `pos` of `b`.
fn read_direct(b: &[u8], pos: usize) -> (r: Option<(DirectMessage, usize)>)
    requires
        pos <= b@.len(),
    ensures
        match parse_direct(b@, pos as int) {
            Some((v, j)) => r matches Some((x, p)) && x@ == v && p == j,
            None => r is None,
        },
        r matches Some((x, p)) ==> p <= b@.len(),
{
    let (f0, p0) = match read_text(b, pos) {
        Some(x) => x,
        None => {
            return None;
        },
    };
    let (f1, p1) = match read_text(b, p0) {
        Some(x) => x,
        None => {
            return None;
        },
    };
    let (f2, p2) = match read_varint(b, p1) {
        Some(x) => x,
        None => {
            return None;
        },
    };
    let x = DirectMessage { from: f0, content: f1, timestamp: f2 };
    Some((x, p2))
}

/// Appends the bytes of a direct message: its fields in order.
fn write_direct(out: &mut Vec<u8>, v: &DirectMessage)
    ensures
        final(out)@ == old(out)@ + direct_bytes(v@),
        direct_fits(v@),
{
    let ghost start = out@;
    write_text(out, &v.from);
    write_text(out, &v.content);
    write_varint(out, v.timestamp);
    assert(out@ =~= start + direct_bytes(v@));
}

/// A gossip message: its kind, then its fields in order.
pub open spec fn gossip_bytes(m: GossipView) -> Seq<u8> {
    match m {
        GossipView::Announce(a) => seq![0u8] + announcement_bytes(a),
        GossipView::Leave { node_id, timestamp } => seq![1u8] + text_bytes(node_id)
            + varint_bytes(timestamp as nat),
    }
}

pub open spec fn parse_gossip(b: Seq<u8>, i: int) -> Option<(GossipView, int)> {
    match parse_varint(b, i, VARINT_MAX_BYTES as nat) {
        Some((kind, j)) => if kind == 0 {
            match parse_announcement(b, j) {
                Some((a, k)) => Some((GossipView::Announce(a), k)),
                None => None,
            }
        } else if kind == 1 {
            match parse_text(b, j) {
                Some((id, j2)) => match parse_varint(b, j2, VARINT_MAX_BYTES as nat) {
                    Some((ts, k)) => Some((GossipView::Leave { node_id: id, timestamp: ts as u64 }, k)),
                    None => None,
                },
                None => None,
            }
        } else {
            None
        },
        None => None,
    }
}

/// The message that `b` holds, where it holds exactly one and nothing after.
pub open spec fn decode_gossip(b: Seq<u8>) -> Option<GossipView> {
    match parse_gossip(b, 0) {
        Some((m, j)) => if j == b.len() {
            Some(m)
        } else {
            None
        },
        None => None,
    }
}

/// The direct message that `b` holds, where it holds exactly one and nothing
/// after.
pub open spec fn decode_direct(b: Seq<u8>) -> Option<DirectView> {
    match parse_direct(b, 0) {
        Some((m, j)) => if j == b.len() {
            Some(m)
        } else {
            None
        },
        None => None,
    }
}

proof fn lemma_gossip_parse(m: GossipView)
    requires
        gossip_valid(m),
    ensures
        parse_gossip(gossip_bytes(m), 0) == Some((m, gossip_bytes(m).len() as int)),
{
    let e = Seq::<u8>::empty();
    let b = gossip_bytes(m);
    match m {
        GossipView::Announce(a) => {
            assert(b =~= seq![0u8] + announcement_bytes(a) + e);
            lemma_announcement_round_trip(seq![0u8], a, e);
        },
        GossipView::Leave { node_id, timestamp } => {
            assert(b =~= seq![1u8] + text_bytes(node_id) + varint_bytes(timestamp as nat));
            lemma_text_round_trip(seq![1u8], node_id, varint_bytes(timestamp as nat));
            lemma_varint_round_trip(seq![1u8] + text_bytes(node_id), timestamp as nat, e);
            assert(seq![1u8] + text_bytes(node_id) + varint_bytes(timestamp as nat) + e =~= b);
        },
    }
}

proof fn lemma_gossip_extend(b: Seq<u8>, more: Seq<u8>)
    requires
        parse_gossip(b, 0) is Some,
    ensures
        parse_gossip(b + more, 0) == parse_gossip(b, 0),
        match parse_gossip(b, 0) {
            Some((m, j)) => j <= b.len(),
            None => true,
        },
{
    lemma_varint_extend(b, 0, VARINT_MAX_BYTES as nat, more);
    let (kind, j) = parse_varint(b, 0, VARINT_MAX_BYTES as nat)->0;
    if kind == 0 {
        lemma_announcement_extend(b, j, more);
    } else {
        lemma_text_extend(b, j, more);
        let (id, j2) = parse_text(b, j)->0;
        lemma_varint_extend(b, j2, VARINT_MAX_BYTES as nat, more);
    }
}

/// Decoding the encoding of a gossip message gives the message back.
pub proof fn lemma_gossip_round_trip(m: GossipView)
    requires
        gossip_valid(m),
    ensures
        decode_gossip(gossip_bytes(m)) == Some(m),
{
    lemma_gossip_parse(m);
}

/// Every proper prefix of the encoding of a gossip message is rejected.
pub proof fn lemma_gossip_truncated_rejected(m: GossipView, n: nat)
    requires
        gossip_valid(m),
        n < gossip_bytes(m).len(),
    ensures
        decode_gossip(gossip_bytes(m).subrange(0, n as int)) is None,
{
    let full = gossip_bytes(m);
    let b = full.subrange(0, n as int);
    lemma_gossip_parse(m);
    if parse_gossip(b, 0) is Some {
        let more = full.subrange(n as int, full.len() as int);
        assert(b + more =~= full);
        lemma_gossip_extend(b, more);
    }
}

/// Decoding the encoding of a direct message gives the message back.
pub proof fn lemma_direct_round_trip(m: DirectView)
    requires
        direct_fits(m),
    ensures
        decode_direct(direct_bytes(m)) == Some(m),
{
    let e = Seq::<u8>::empty();
    assert(e + direct_bytes(m) + e =~= direct_bytes(m));
    lemma_direct_round_trip_at(e, m, e);
}

/// Every proper prefix of the encoding of a direct message is rejected.
pub proof fn lemma_direct_truncated_rejected(m: DirectView, n: nat)
    requires
        direct_fits(m),
        n < direct_bytes(m).len(),
    ensures
        decode_direct(direct_bytes(m).subrange(0, n as int)) is None,
{
    let e = Seq::<u8>::empty();
    let full = direct_bytes(m);
    let b = full.subrange(0, n as int);
    assert(e + full + e =~= full);
    lemma_direct_round_trip_at(e, m, e);
    if parse_direct(b, 0) is Some {
        let more = full.subrange(n as int, full.len() as int);
        assert(b + more =~= full);
        lemma_direct_extend(b, 0, more);
    }
}

impl GossipMessage {
    /// Encodes the message for the gossip channel.
    pub fn to_bytes(&self) -> (r: Vec<u8>)
        ensures
            r@ == gossip_bytes(self@),
            gossip_fits(self@),
    {
        let mut out: Vec<u8> = Vec::new();
        match self {
            GossipMessage::Announce(a) => {
                out.push(0u8);
                write_announcement(&mut out, a);
            },
            GossipMessage::Leave { node_id, timestamp } => {
                out.push(1u8);
                write_text(&mut out, node_id);
                write_varint(&mut out, *timestamp);
            },
        }
        assert(out@ =~= gossip_bytes(self@));
        out
    }

    /// Decodes a message received on the gossip channel.
    pub fn from_bytes(bytes: &[u8]) -> (r: Result<GossipMessage, DecodeError>)
        ensures
            match decode_gossip(bytes@) {
                Some(m) => r matches Ok(x) && x@ == m,
                None => r is Err,
            },
    {
        let (kind, p) = match read_varint(bytes, 0) {
            Some(x) => x,
            None => {
                return Err(DecodeError);
            },
        };
        let (msg, end) = if kind == 0 {
            match read_announcement(bytes, p) {
                Some((a, q)) => (GossipMessage::Announce(a), q),
                None => {
                    return Err(DecodeError);
                },
            }
        } else if kind == 1 {
            let (node_id, q) = match read_text(bytes, p) {
                Some(x) => x,
                None => {
                    return Err(DecodeError);
                },
            };
            let (timestamp, q2) = match read_varint(bytes, q) {
                Some(x) => x,
                None => {
                    return Err(DecodeError);
                },
            };
            (GossipMessage::Leave { node_id, timestamp }, q2)
        } else {
            return Err(DecodeError);
        };
        if end == bytes.len() {
            Ok(msg)
        } else {
            Err(DecodeError)
        }
    }
}

impl DirectMessage {
    /// Encodes the message for a direct stream.
    pub fn to_bytes(&self) -> (r: Vec<u8>)
        ensures
            r@ == direct_bytes(self@),
            direct_fits(self@),
    {
        let mut out: Vec<u8> = Vec::new();
        write_direct(&mut out, self);
        out
    }

    /// Decodes a message read from a direct stream.
    pub fn from_bytes(bytes: &[u8]) -> (r: Result<DirectMessage, DecodeError>)
        ensures
            match decode_direct(bytes@) {
                Some(m) => r matches Ok(x) && x@ == m,
                None => r is Err,
            },
    {
        match read_direct(bytes, 0) {
            Some((m, p)) => if p == bytes.len() {
                Ok(m)
            } else {
                Err(DecodeError)
            },
            None => Err(DecodeError),
        }
    }
}

} // verus!
