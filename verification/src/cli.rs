//! What the command-line client prints: responses rendered as terminal
//! lines, events as log lines, and the hook environment a watched event is
//! handed to. Writing the lines and running hooks is the caller's part.

use vstd::prelude::*;

use crate::text::{decimal, decimal_text, lemma_decimal_text_injective};

verus! {

/// The kind of a chat-log event.
#[derive(Debug, Clone, Copy, PartialEq, Eq)]
pub enum EventKind {
    Chat,
    Join,
    Call,
    Resource,
    Presence,
    System,
}

/// One event of the log.
#[derive(Debug, Clone)]
pub struct Event {
    pub seq: u64,
    pub kind: EventKind,
    pub nick: String,
    pub id: String,
    pub text: String,
    /// Addressed to this device.
    pub direct: bool,
    pub ts: u64,
}

/// A daemon's status.
#[derive(Debug, Clone)]
pub struct StatusInfo {
    pub id: String,
    pub nick: String,
    pub room: String,
    pub online_peers: u64,
    pub contacts: u64,
    pub resources: u64,
}

#[derive(Debug, Clone)]
pub struct Contact {
    pub nick: String,
    pub id: String,
}

#[derive(Debug, Clone)]
pub struct Peer {
    pub nick: String,
    pub id: String,
    pub online: bool,
    pub is_contact: bool,
}

#[derive(Debug, Clone)]
pub struct SharedResource {
    pub label: String,
    pub from: String,
    pub ticket: String,
}

/// A daemon's answer to one request.
#[derive(Debug, Clone)]
pub enum Response {
    /// Success, with an optional message.
    Done { message: Option<String> },
    Text { text: String },
    Status(StatusInfo),
    Events { events: Vec<Event>, last: u64 },
    Contacts { contacts: Vec<Contact> },
    Who { peers: Vec<Peer> },
    Resources { resources: Vec<SharedResource> },
    Error { message: String },
}

/// One line of terminal output.
#[derive(Debug, Clone)]
pub struct OutLine {
    /// Written to standard error rather than standard output.
    pub to_stderr: bool,
    pub text: String,
}

/// Short machine-readable name for an event kind (also a hook variable).
pub open spec fn kind_text(k: EventKind) -> Seq<char> {
    match k {
        EventKind::Chat => "chat"@,
        EventKind::Join => "join"@,
        EventKind::Call => "call"@,
        EventKind::Resource => "resource"@,
        EventKind::Presence => "presence"@,
        EventKind::System => "system"@,
    }
}

pub fn kind_str(k: &EventKind) -> (r: &'static str)
    ensures
        r@ == kind_text(*k),
{
    match k {
        EventKind::Chat => "chat",
        EventKind::Join => "join",
        EventKind::Call => "call",
        EventKind::Resource => "resource",
        EventKind::Presence => "presence",
        EventKind::System => "system",
    }
}

/// The tag an event line carries for its kind.
pub open spec fn tag_text(k: EventKind) -> Seq<char> {
    match k {
        EventKind::Chat => ""@,
        EventKind::Join => "[join] "@,
        EventKind::Call => "[call] "@,
        EventKind::Resource => "[resource] "@,
        EventKind::Presence => "[presence] "@,
        EventKind::System => "[system] "@,
    }
}

/// An event as `log` and `watch` show it: a bell for direct ones, the kind's
/// tag, then `nick: text`.
pub open spec fn event_text(e: Event) -> Seq<char> {
    (if e.direct {
        "\u{1F514} "@
    } else {
        ""@
    }) + tag_text(e.kind) + e.nick@ + ": "@ + e.text@
}

pub fn event_line(e: &Event) -> (r: String)
    ensures
        r@ == event_text(*e),
{
    let mut s = String::from_str(if e.direct { "\u{1F514} " } else { "" });
    let tag = match e.kind {
        EventKind::Chat => "",
        EventKind::Join => "[join] ",
        EventKind::Call => "[call] ",
        EventKind::Resource => "[resource] ",
        EventKind::Presence => "[presence] ",
        EventKind::System => "[system] ",
    };
    s.append(tag);
    s.append(e.nick.as_str());
    s.append(": ");
    s.append(e.text.as_str());
    s
}

/// The environment a hook runs with: the event's fields as variables.
pub open spec fn hook_env_texts(e: Event) -> Seq<(Seq<char>, Seq<char>)> {
    seq![
        ("LAIT_EVENT_SEQ"@, decimal_text(e.seq as nat)),
        ("LAIT_EVENT_KIND"@, kind_text(e.kind)),
        ("LAIT_EVENT_NICK"@, e.nick@),
        ("LAIT_EVENT_ID"@, e.id@),
        ("LAIT_EVENT_TEXT"@, e.text@),
        ("LAIT_EVENT_DIRECT"@, if e.direct { "true"@ } else { "false"@ }),
        ("LAIT_EVENT_TS"@, decimal_text(e.ts as nat)),
    ]
}

pub open spec fn pair_texts(v: Seq<(String, String)>) -> Seq<(Seq<char>, Seq<char>)> {
    v.map_values(|p: (String, String)| (p.0@, p.1@))
}

pub fn hook_env(e: &Event) -> (r: Vec<(String, String)>)
    ensures
        pair_texts(r@) == hook_env_texts(*e),
{
    let mut v: Vec<(String, String)> = Vec::new();
    v.push((String::from_str("LAIT_EVENT_SEQ"), decimal(e.seq)));
    v.push((String::from_str("LAIT_EVENT_KIND"), String::from_str(kind_str(&e.kind))));
    v.push((String::from_str("LAIT_EVENT_NICK"), e.nick.clone()));
    v.push((String::from_str("LAIT_EVENT_ID"), e.id.clone()));
    v.push((String::from_str("LAIT_EVENT_TEXT"), e.text.clone()));
    v.push(
        (
            String::from_str("LAIT_EVENT_DIRECT"),
            String::from_str(if e.direct { "true" } else { "false" }),
        ),
    );
    v.push((String::from_str("LAIT_EVENT_TS"), decimal(e.ts)));
    assert(pair_texts(v@) =~= hook_env_texts(*e));
    v
}

/// The command line a hook runs in: the platform shell (`sh -c` on Unix,
/// `cmd /C` on Windows) given the hook text.
pub fn hook_command(cmd: &str, windows: bool) -> (r: Vec<String>)
    ensures
        r@.len() == 3,
        r@[0]@ == (if windows { "cmd"@ } else { "sh"@ }),
        r@[1]@ == (if windows { "/C"@ } else { "-c"@ }),
        r@[2]@ == cmd@,
{
    let mut v: Vec<String> = Vec::new();
    if windows {
        v.push(String::from_str("cmd"));
        v.push(String::from_str("/C"));
    } else {
        v.push(String::from_str("sh"));
        v.push(String::from_str("-c"));
    }
    v.push(String::from_str(cmd));
    v
}

/// Whether a watched event fires the hook and the notification.
pub fn should_fire(e: &Event, direct_only: bool) -> (r: bool)
    ensures
        r == (!direct_only || e.direct),
{
    !direct_only || e.direct
}

/// The watch cursor after a batch ending at `last`: it never moves back.
pub fn next_cursor(cursor: u64, last: u64) -> (r: u64)
    ensures
        r == if last > cursor { last } else { cursor },
{
    if last > cursor {
        last
    } else {
        cursor
    }
}

// ---------------------------------------------------------------------------
// Rendering responses
// ---------------------------------------------------------------------------

pub open spec fn line_views(v: Seq<OutLine>) -> Seq<(bool, Seq<char>)> {
    v.map_values(|l: OutLine| (l.to_stderr, l.text@))
}

pub open spec fn out(t: Seq<char>) -> (bool, Seq<char>) {
    (false, t)
}

pub open spec fn event_lines(es: Seq<Event>) -> Seq<(bool, Seq<char>)> {
    es.map_values(|e: Event| out(event_text(e)))
}

pub open spec fn contact_lines(cs: Seq<Contact>) -> Seq<(bool, Seq<char>)> {
    cs.map_values(|c: Contact| out(c.nick@ + "  "@ + c.id@))
}

pub open spec fn peer_text(p: Peer) -> Seq<char> {
    (if p.online {
        "\u{25CF}"@
    } else {
        "\u{25CB}"@
    }) + " "@ + p.nick@ + "  ("@ + p.id@ + ")"@ + (if p.is_contact {
        " \u{2713}contact"@
    } else {
        ""@
    })
}

pub open spec fn resource_text(r: SharedResource) -> Seq<char> {
    r.label@ + "  from "@ + r.from@ + "\n    "@ + r.ticket@
}

/// Character-wise lexicographic order on text (what `String`'s `Ord` gives
/// for UTF-8).
pub open spec fn text_le(a: Seq<char>, b: Seq<char>) -> bool
    decreases a.len(),
{
    if a.len() == 0 {
        true
    } else if b.len() == 0 {
        false
    } else if a[0] != b[0] {
        a[0] < b[0]
    } else {
        text_le(a.drop_first(), b.drop_first())
    }
}

/// Online peers first, then by nick.
pub open spec fn peer_le(a: Peer, b: Peer) -> bool {
    if a.online != b.online {
        a.online
    } else {
        text_le(a.nick@, b.nick@)
    }
}

pub open spec fn peers_sorted(ps: Seq<Peer>) -> bool {
    forall|i: int, j: int| 0 <= i < j < ps.len() ==> peer_le(#[trigger] ps[i], #[trigger] ps[j])
}

/// The lines a response prints, apart from the listing order of peers.
pub open spec fn response_lines(r: Response) -> Seq<(bool, Seq<char>)> {
    match r {
        Response::Done { message } => match message {
            Some(m) => seq![out(m@)],
            None => seq![out("ok"@)],
        },
        Response::Text { text } => seq![out(text@)],
        Response::Status(s) => seq![
            out("id:        "@ + s.id@),
            out("nick:      "@ + s.nick@),
            out("room:      "@ + s.room@),
            out("online:    "@ + decimal_text(s.online_peers as nat) + " peer(s)"@),
            out("contacts:  "@ + decimal_text(s.contacts as nat)),
            out("resources: "@ + decimal_text(s.resources as nat)),
        ],
        Response::Events { events, last } => event_lines(events@) + if events@.len() == 0 {
            seq![out("(no new messages)"@)]
        } else {
            seq![out("--- last seq "@ + decimal_text(last as nat) + " ---"@)]
        },
        Response::Contacts { contacts } => (if contacts@.len() == 0 {
            seq![out("(no contacts)"@)]
        } else {
            Seq::empty()
        }) + contact_lines(contacts@),
        Response::Who { peers } => Seq::empty(),
        Response::Resources { resources } => (if resources@.len() == 0 {
            seq![out("(no resources shared)"@)]
        } else {
            Seq::empty()
        }) + resources@.map_values(|r: SharedResource| out(resource_text(r))),
        Response::Error { message } => seq![(true, "error: "@ + message@)],
    }
}

fn line(text: String) -> (r: OutLine)
    ensures
        r.to_stderr == false,
        r.text@ == text@,
{
    OutLine { to_stderr: false, text }
}

fn text_le_exec(a: &String, b: &String) -> (r: bool)
    ensures
        r == text_le(a@, b@),
{
    let x = crate::text::chars_of(a.as_str());
    let y = crate::text::chars_of(b.as_str());
    assert(x@.subrange(0, x@.len() as int) =~= x@);
    assert(y@.subrange(0, y@.len() as int) =~= y@);
    let mut i: usize = 0;
    while i < x.len() && i < y.len() && x[i] == y[i]
        invariant
            0 <= i <= x@.len(),
            i <= y@.len(),
            text_le(a@, b@) == text_le(x@.subrange(i as int, x@.len() as int), y@.subrange(
                i as int,
                y@.len() as int,
            )),
        decreases x@.len() - i,
    {
        let ghost xs = x@.subrange(i as int, x@.len() as int);
        let ghost ys = y@.subrange(i as int, y@.len() as int);
        assert(xs.drop_first() =~= x@.subrange(i + 1, x@.len() as int));
        assert(ys.drop_first() =~= y@.subrange(i + 1, y@.len() as int));
        i = i + 1;
    }
    let ghost xs = x@.subrange(i as int, x@.len() as int);
    let ghost ys = y@.subrange(i as int, y@.len() as int);
    if i == x.len() {
        return true;
    }
    if i == y.len() {
        return false;
    }
    assert(xs[0] == x@[i as int] && ys[0] == y@[i as int]);
    x[i] < y[i]
}

proof fn lemma_text_le_total(a: Seq<char>, b: Seq<char>)
    ensures
        text_le(a, b) || text_le(b, a),
    decreases a.len(),
{
    if a.len() > 0 && b.len() > 0 && a[0] == b[0] {
        lemma_text_le_total(a.drop_first(), b.drop_first());
    }
}

proof fn lemma_text_le_trans(a: Seq<char>, b: Seq<char>, c: Seq<char>)
    requires
        text_le(a, b),
        text_le(b, c),
    ensures
        text_le(a, c),
    decreases a.len(),
{
    if a.len() > 0 && b.len() > 0 && c.len() > 0 {
        if a[0] == b[0] && b[0] == c[0] {
            lemma_text_le_trans(a.drop_first(), b.drop_first(), c.drop_first());
        }
    }
}

proof fn lemma_peer_le_total(a: Peer, b: Peer)
    ensures
        peer_le(a, b) || peer_le(b, a),
{
    lemma_text_le_total(a.nick@, b.nick@);
}

proof fn lemma_peer_le_trans(a: Peer, b: Peer, c: Peer)
    requires
        peer_le(a, b),
        peer_le(b, c),
    ensures
        peer_le(a, c),
{
    if a.online == b.online && b.online == c.online {
        lemma_text_le_trans(a.nick@, b.nick@, c.nick@);
    }
}


/// Two peers with the same sort key: the same presence and the same nick.
pub open spec fn same_key(a: Peer, b: Peer) -> bool {
    a.online == b.online && a.nick@ == b.nick@
}

/// The peers of `s` with the sort key of `q`, in their order in `s`.
pub open spec fn key_class(s: Seq<Peer>, q: Peer) -> Seq<Peer> {
    s.filter(|x: Peer| same_key(x, q))
}

proof fn lemma_text_le_refl(a: Seq<char>)
    ensures
        text_le(a, a),
    decreases a.len(),
{
    if a.len() > 0 {
        lemma_text_le_refl(a.drop_first());
    }
}

proof fn lemma_key_class_push(s: Seq<Peer>, x: Peer, q: Peer)
    ensures
        key_class(s.push(x), q) == if same_key(x, q) {
            key_class(s, q).push(x)
        } else {
            key_class(s, q)
        },
{
    reveal(Seq::filter);
    assert(s.push(x).drop_last() =~= s);
}

proof fn lemma_key_class_none(s: Seq<Peer>, q: Peer)
    requires
        forall|k: int| 0 <= k < s.len() ==> !same_key(#[trigger] s[k], q),
    ensures
        key_class(s, q) =~= Seq::<Peer>::empty(),
    decreases s.len(),
{
    reveal(Seq::filter);
    if s.len() > 0 {
        lemma_key_class_none(s.drop_last(), q);
    }
}

/// Inserting `p` at `j`, where everything from `j` on sorts strictly after
/// `p`, appends `p` to its own key class and leaves the others alone.
proof fn lemma_key_class_insert(s: Seq<Peer>, j: int, p: Peer, q: Peer)
    requires
        0 <= j <= s.len(),
        forall|k: int| j <= k < s.len() ==> !peer_le(#[trigger] s[k], p),
    ensures
        key_class(s.insert(j, p), q) == if same_key(p, q) {
            key_class(s, q).push(p)
        } else {
            key_class(s, q)
        },
{
    let pre = s.subrange(0, j);
    let post = s.subrange(j, s.len() as int);
    let pred = |x: Peer| same_key(x, q);
    assert(s =~= pre + post);
    assert(s.insert(j, p) =~= pre.push(p) + post);
    Seq::filter_distributes_over_add(pre, post, pred);
    Seq::filter_distributes_over_add(pre.push(p), post, pred);
    lemma_key_class_push(pre, p, q);
    if same_key(p, q) {
        assert forall|k: int| 0 <= k < post.len() implies !same_key(#[trigger] post[k], q) by {
            assert(post[k] == s[j + k]);
            if same_key(post[k], q) {
                lemma_text_le_refl(p.nick@);
                assert(peer_le(post[k], p));
            }
        }
        lemma_key_class_none(post, q);
    }
}

fn copy_peer(p: &Peer) -> (r: Peer)
    ensures
        r == *p,
{
    Peer { nick: p.nick.clone(), id: p.id.clone(), online: p.online, is_contact: p.is_contact }
}

/// Peers sorted online first, then by nick, stably: peers with equal keys
/// keep their arrival order.
pub fn sort_peers(peers: &Vec<Peer>) -> (r: Vec<Peer>)
    ensures
        peers_sorted(r@),
        r@.to_multiset() == peers@.to_multiset(),
        forall|q: Peer| #[trigger] key_class(r@, q) == key_class(peers@, q),
{
    broadcast use vstd::seq_lib::to_multiset_insert;

    let mut out: Vec<Peer> = Vec::new();
    assert(out@ =~= peers@.subrange(0, 0));
    let mut i: usize = 0;
    while i < peers.len()
        invariant
            0 <= i <= peers@.len(),
            peers_sorted(out@),
            out@.to_multiset() == peers@.subrange(0, i as int).to_multiset(),
            forall|q: Peer| #[trigger] key_class(out@, q) == key_class(peers@.subrange(0, i as int), q),
        decreases peers@.len() - i,
    {
        let p = copy_peer(&peers[i]);
        let mut j: usize = 0;
        while j < out.len() && !peer_after(&p, &out[j])
            invariant
                0 <= j <= out@.len(),
                i < peers@.len(),
                p == peers@[i as int],
                peers_sorted(out@),
                out@.to_multiset() == peers@.subrange(0, i as int).to_multiset(),
                forall|q: Peer| #[trigger] key_class(out@, q) == key_class(peers@.subrange(0, i as int), q),
                forall|k: int| 0 <= k < j ==> peer_le(#[trigger] out@[k], p),
            decreases out@.len() - j,
        {
            j = j + 1;
        }
        proof {
            if j < out@.len() {
                lemma_peer_le_total(out@[j as int], p);
            }
        }
        let ghost before = out@;
        out.insert(j, p);
        proof {
            assert(out@ == before.insert(j as int, p));
            assert forall|a: int, b: int| 0 <= a < b < out@.len() implies peer_le(
                #[trigger] out@[a],
                #[trigger] out@[b],
            ) by {
                if b < j {
                    assert(out@[a] == before[a] && out@[b] == before[b]);
                } else if b == j {
                    assert(out@[a] == before[a]);
                } else if a == j {
                    assert(out@[b] == before[b - 1]);
                    assert(peer_le(p, before[j as int]));
                    if b - 1 > j {
                        lemma_peer_le_trans(p, before[j as int], before[b - 1]);
                    }
                } else if a < j {
                    assert(out@[a] == before[a] && out@[b] == before[b - 1]);
                } else {
                    assert(out@[a] == before[a - 1] && out@[b] == before[b - 1]);
                }
            }
            assert(peers@.subrange(0, i + 1) =~= peers@.subrange(0, i as int).push(p));
            vstd::seq_lib::to_multiset_build(peers@.subrange(0, i as int), p);
            vstd::seq_lib::to_multiset_insert(before, j as int, p);
            assert forall|k: int| j <= k < before.len() implies !peer_le(#[trigger] before[k], p) by {
                if peer_le(before[k], p) {
                    if k > j {
                        assert(peer_le(before[j as int], before[k]));
                        lemma_peer_le_trans(before[j as int], before[k], p);
                    }
                }
            }
            assert forall|q: Peer| #[trigger] key_class(out@, q) == key_class(peers@.subrange(0, i + 1), q) by {
                lemma_key_class_insert(before, j as int, p, q);
                lemma_key_class_push(peers@.subrange(0, i as int), p, q);
            }
        }
        i = i + 1;
    }
    assert(peers@.subrange(0, i as int) =~= peers@);
    out
}

/// Whether `q` sorts strictly before `p` fails, i.e. `p` goes before `q`:
/// `!peer_le(q, p)`.
fn peer_after(p: &Peer, q: &Peer) -> (r: bool)
    ensures
        r == !peer_le(*q, *p),
{
    if q.online != p.online {
        !q.online
    } else {
        !text_le_exec(&q.nick, &p.nick)
    }
}

fn peer_line(p: &Peer) -> (r: String)
    ensures
        r@ == peer_text(*p),
{
    let mut s = String::from_str(if p.online { "\u{25CF}" } else { "\u{25CB}" });
    s.append(" ");
    s.append(p.nick.as_str());
    s.append("  (");
    s.append(p.id.as_str());
    s.append(")");
    s.append(if p.is_contact { " \u{2713}contact" } else { "" });
    s
}

/// The lines a `Who` response prints, for peers in the given order.
pub open spec fn who_lines(sorted: Seq<Peer>) -> Seq<(bool, Seq<char>)> {
    (if sorted.len() == 0 {
        seq![out("(no peers seen yet)"@)]
    } else {
        Seq::empty()
    }) + sorted.map_values(|p: Peer| out(peer_text(p)))
}

fn push_line(v: &mut Vec<OutLine>, to_stderr: bool, text: String)
    ensures
        line_views(final(v)@) == line_views(old(v)@).push((to_stderr, text@)),
{
    let ghost before = v@;
    v.push(OutLine { to_stderr, text });
    assert(line_views(v@) =~= line_views(before).push((to_stderr, text@)));
}

fn labeled(label: &str, value: &str) -> (r: String)
    ensures
        r@ == label@ + value@,
{
    let mut s = String::from_str(label);
    s.append(value);
    s
}

/// The terminal lines a response prints. Peers are listed online first,
/// then by nick, peers with equal keys in the order they came.
pub fn render_response(resp: &Response) -> (r: Vec<OutLine>)
    ensures
        !(resp is Who) ==> line_views(r@) == response_lines(*resp),
        resp matches Response::Who { peers } ==> exists|sorted: Seq<Peer>|
            peers_sorted(sorted) && sorted.to_multiset() == peers@.to_multiset() && (forall|q: Peer|
                #[trigger] key_class(sorted, q) == key_class(peers@, q)) && line_views(r@)
                == who_lines(sorted),
{
    let mut v: Vec<OutLine> = Vec::new();
    match resp {
        Response::Done { message } => {
            match message {
                Some(m) => push_line(&mut v, false, m.clone()),
                None => push_line(&mut v, false, String::from_str("ok")),
            }
            assert(line_views(v@) =~= response_lines(*resp));
        },
        Response::Text { text } => {
            push_line(&mut v, false, text.clone());
            assert(line_views(v@) =~= response_lines(*resp));
        },
        Response::Status(st) => {
            push_line(&mut v, false, labeled("id:        ", st.id.as_str()));
            push_line(&mut v, false, labeled("nick:      ", st.nick.as_str()));
            push_line(&mut v, false, labeled("room:      ", st.room.as_str()));
            let mut online = labeled("online:    ", decimal(st.online_peers).as_str());
            online.append(" peer(s)");
            push_line(&mut v, false, online);
            push_line(&mut v, false, labeled("contacts:  ", decimal(st.contacts).as_str()));
            push_line(&mut v, false, labeled("resources: ", decimal(st.resources).as_str()));
            assert(line_views(v@) =~= response_lines(*resp));
        },
        Response::Events { events, last } => {
            let mut i: usize = 0;
            while i < events.len()
                invariant
                    0 <= i <= events@.len(),
                    line_views(v@) == event_lines(events@.subrange(0, i as int)),
                decreases events@.len() - i,
            {
                push_line(&mut v, false, event_line(&events[i]));
                assert(event_lines(events@.subrange(0, i + 1)) =~= event_lines(
                    events@.subrange(0, i as int),
                ).push(out(event_text(events@[i as int]))));
                i = i + 1;
            }
            assert(events@.subrange(0, i as int) =~= events@);
            if events.len() == 0 {
                push_line(&mut v, false, String::from_str("(no new messages)"));
            } else {
                let mut s = labeled("--- last seq ", decimal(*last).as_str());
                s.append(" ---");
                push_line(&mut v, false, s);
            }
            assert(line_views(v@) =~= response_lines(*resp));
        },
        Response::Contacts { contacts } => {
            if contacts.len() == 0 {
                push_line(&mut v, false, String::from_str("(no contacts)"));
            }
            let ghost head = line_views(v@);
            let mut i: usize = 0;
            while i < contacts.len()
                invariant
                    0 <= i <= contacts@.len(),
                    line_views(v@) == head + contact_lines(contacts@.subrange(0, i as int)),
                decreases contacts@.len() - i,
            {
                let mut s = labeled(contacts[i].nick.as_str(), "  ");
                s.append(contacts[i].id.as_str());
                push_line(&mut v, false, s);
                assert(contact_lines(contacts@.subrange(0, i + 1)) =~= contact_lines(
                    contacts@.subrange(0, i as int),
                ).push(out(contacts@[i as int].nick@ + "  "@ + contacts@[i as int].id@)));
                i = i + 1;
            }
            assert(contacts@.subrange(0, i as int) =~= contacts@);
            assert(line_views(v@) =~= response_lines(*resp));
        },
        Response::Who { peers } => {
            let sorted = sort_peers(peers);
            if sorted.len() == 0 {
                push_line(&mut v, false, String::from_str("(no peers seen yet)"));
            }
            let ghost head = line_views(v@);
            let mut i: usize = 0;
            while i < sorted.len()
                invariant
                    0 <= i <= sorted@.len(),
                    line_views(v@) == head + sorted@.subrange(0, i as int).map_values(
                        |p: Peer| out(peer_text(p)),
                    ),
                decreases sorted@.len() - i,
            {
                push_line(&mut v, false, peer_line(&sorted[i]));
                assert(sorted@.subrange(0, i + 1).map_values(|p: Peer| out(peer_text(p)))
                    =~= sorted@.subrange(0, i as int).map_values(|p: Peer| out(peer_text(p))).push(
                    out(peer_text(sorted@[i as int])),
                ));
                i = i + 1;
            }
            assert(sorted@.subrange(0, i as int) =~= sorted@);
            assert(line_views(v@) =~= who_lines(sorted@));
        },
        Response::Resources { resources } => {
            if resources.len() == 0 {
                push_line(&mut v, false, String::from_str("(no resources shared)"));
            }
            let ghost head = line_views(v@);
            let mut i: usize = 0;
            while i < resources.len()
                invariant
                    0 <= i <= resources@.len(),
                    line_views(v@) == head + resources@.subrange(0, i as int).map_values(
                        |r: SharedResource| out(resource_text(r)),
                    ),
                decreases resources@.len() - i,
            {
                let r = &resources[i];
                let mut s = labeled(r.label.as_str(), "  from ");
                s.append(r.from.as_str());
                s.append("\n    ");
                s.append(r.ticket.as_str());
                push_line(&mut v, false, s);
                assert(resources@.subrange(0, i + 1).map_values(
                    |r: SharedResource| out(resource_text(r)),
                ) =~= resources@.subrange(0, i as int).map_values(
                    |r: SharedResource| out(resource_text(r)),
                ).push(out(resource_text(resources@[i as int]))));
                i = i + 1;
            }
            assert(resources@.subrange(0, i as int) =~= resources@);
            assert(line_views(v@) =~= response_lines(*resp));
        },
        Response::Error { message } => {
            push_line(&mut v, true, labeled("error: ", message.as_str()));
            assert(line_views(v@) =~= response_lines(*resp));
        },
    }
    v
}

/// The title of an event's desktop notification.
pub fn notify_title(e: &Event) -> (r: String)
    ensures
        r@ == "groupchat: "@ + e.nick@,
{
    let mut s = String::from_str("groupchat: ");
    s.append(e.nick.as_str());
    s
}

proof fn lemma_text_le_antisymmetric(a: Seq<char>, b: Seq<char>)
    requires
        text_le(a, b),
        text_le(b, a),
    ensures
        a == b,
    decreases a.len(),
{
    if a.len() == 0 || b.len() == 0 {
        assert(a.len() == 0 && b.len() == 0);
        assert(a =~= b);
    } else {
        lemma_text_le_antisymmetric(a.drop_first(), b.drop_first());
        assert(a =~= seq![a[0]] + a.drop_first());
        assert(b =~= seq![b[0]] + b.drop_first());
    }
}

proof fn lemma_key_class_prepend(x: Peer, s: Seq<Peer>, q: Peer)
    ensures
        key_class(seq![x] + s, q) == if same_key(x, q) {
            seq![x] + key_class(s, q)
        } else {
            key_class(s, q)
        },
{
    let pred = |y: Peer| same_key(y, q);
    Seq::filter_distributes_over_add(seq![x], s, pred);
    lemma_key_class_push(Seq::<Peer>::empty(), x, q);
    assert(Seq::<Peer>::empty().push(x) =~= seq![x]);
    lemma_key_class_none(Seq::<Peer>::empty(), q);
}

proof fn lemma_key_class_member(s: Seq<Peer>, q: Peer)
    requires
        key_class(s, q).len() > 0,
    ensures
        exists|k: int| 0 <= k < s.len() && same_key(#[trigger] s[k], q),
    decreases s.len(),
{
    reveal(Seq::filter);
    if s.len() > 0 {
        if same_key(s.last(), q) {
            assert(same_key(s[s.len() - 1], q));
        } else {
            lemma_key_class_member(s.drop_last(), q);
            let k = choose|k: int| 0 <= k < s.drop_last().len() && same_key(#[trigger] s.drop_last()[k], q);
            assert(s[k] == s.drop_last()[k]);
        }
    }
}

proof fn lemma_labeled_count(label: Seq<char>, suffix: Seq<char>, a: nat, b: nat)
    requires
        label + decimal_text(a) + suffix == label + decimal_text(b) + suffix,
    ensures
        a == b,
{
    let x = label + decimal_text(a) + suffix;
    let y = label + decimal_text(b) + suffix;
    assert(x.len() == y.len());
    assert(x.subrange(label.len() as int, x.len() - suffix.len()) =~= decimal_text(a));
    assert(y.subrange(label.len() as int, y.len() - suffix.len()) =~= decimal_text(b));
    lemma_decimal_text_injective(a, b);
}

/// A status prints six lines to standard output, and each count line shows
/// its own count: two statuses print the same `online` line exactly when
/// their online-peer counts agree, the same `contacts` line exactly when
/// their contact counts agree, and the same `resources` line exactly when
/// their resource counts agree, whatever the other fields hold; likewise
/// the `id`, `nick` and `room` lines show their own fields.
pub proof fn lemma_status_lines_show_their_own_counts(s: StatusInfo, t: StatusInfo)
    ensures
        response_lines(Response::Status(s)).len() == 6,
        forall|i: int| 0 <= i < 6 ==> !(#[trigger] response_lines(Response::Status(s))[i]).0,
        (response_lines(Response::Status(s))[3] == response_lines(Response::Status(t))[3])
            <==> s.online_peers == t.online_peers,
        (response_lines(Response::Status(s))[4] == response_lines(Response::Status(t))[4])
            <==> s.contacts == t.contacts,
        (response_lines(Response::Status(s))[5] == response_lines(Response::Status(t))[5])
            <==> s.resources == t.resources,
        response_lines(Response::Status(s))[4].1.subrange(0, 11) == "contacts:  "@,
        (response_lines(Response::Status(s))[0] == response_lines(Response::Status(t))[0]) <==> s.id@
            == t.id@,
        (response_lines(Response::Status(s))[1] == response_lines(Response::Status(t))[1]) <==> s.nick@
            == t.nick@,
        (response_lines(Response::Status(s))[2] == response_lines(Response::Status(t))[2]) <==> s.room@
            == t.room@,
{
    let ls = response_lines(Response::Status(s));
    let lt = response_lines(Response::Status(t));
    reveal_strlit("id:        ");
    reveal_strlit("nick:      ");
    reveal_strlit("room:      ");
    assert(ls[4].1 =~= "contacts:  "@ + decimal_text(s.contacts as nat) + Seq::<char>::empty());
    assert(lt[4].1 =~= "contacts:  "@ + decimal_text(t.contacts as nat) + Seq::<char>::empty());
    assert(ls[5].1 =~= "resources: "@ + decimal_text(s.resources as nat) + Seq::<char>::empty());
    assert(lt[5].1 =~= "resources: "@ + decimal_text(t.resources as nat) + Seq::<char>::empty());
    if ls[3] == lt[3] {
        lemma_labeled_count("online:    "@, " peer(s)"@, s.online_peers as nat, t.online_peers as nat);
    }
    if ls[4] == lt[4] {
        lemma_labeled_count("contacts:  "@, Seq::empty(), s.contacts as nat, t.contacts as nat);
    }
    if ls[5] == lt[5] {
        lemma_labeled_count("resources: "@, Seq::empty(), s.resources as nat, t.resources as nat);
    }
    if ls[0] == lt[0] {
        assert(ls[0].1.subrange(11, ls[0].1.len() as int) =~= s.id@);
        assert(lt[0].1.subrange(11, lt[0].1.len() as int) =~= t.id@);
    }
    if ls[1] == lt[1] {
        assert(ls[1].1.subrange(11, ls[1].1.len() as int) =~= s.nick@);
        assert(lt[1].1.subrange(11, lt[1].1.len() as int) =~= t.nick@);
    }
    if ls[2] == lt[2] {
        assert(ls[2].1.subrange(11, ls[2].1.len() as int) =~= s.room@);
        assert(lt[2].1.subrange(11, lt[2].1.len() as int) =~= t.room@);
    }
    reveal_strlit("contacts:  ");
    assert(ls[4].1.subrange(0, 11) =~= "contacts:  "@);
}

/// A peer listing is determined: two orders of the same peers that are both
/// sorted (online first, then by nick) and both keep equal-key peers in one
/// relative order are the same listing.
pub proof fn lemma_peer_listing_unique(a: Seq<Peer>, b: Seq<Peer>)
    requires
        peers_sorted(a),
        peers_sorted(b),
        forall|q: Peer| #[trigger] key_class(a, q) == key_class(b, q),
    ensures
        a == b,
    decreases a.len() + b.len(),
{
    if a.len() == 0 && b.len() == 0 {
        assert(a =~= b);
    } else if a.len() == 0 || b.len() == 0 {
        let x = if a.len() > 0 { a[0] } else { b[0] };
        lemma_text_le_refl(x.nick@);
        let (full, empty) = if a.len() > 0 { (a, b) } else { (b, a) };
        assert(full =~= seq![full[0]] + full.drop_first());
        lemma_key_class_prepend(full[0], full.drop_first(), x);
        assert(empty =~= Seq::<Peer>::empty());
        lemma_key_class_none(empty, x);
        assert(key_class(a, x).len() != key_class(b, x).len());
    } else {
        let x = a[0];
        let y = b[0];
        assert(a =~= seq![x] + a.drop_first());
        assert(b =~= seq![y] + b.drop_first());
        lemma_text_le_refl(x.nick@);
        lemma_text_le_refl(y.nick@);
        // The first of each listing sorts no later than the first of the other.
        lemma_key_class_prepend(x, a.drop_first(), x);
        lemma_key_class_prepend(y, b.drop_first(), y);
        assert(key_class(b, x).len() > 0);
        assert(key_class(a, y).len() > 0);
        lemma_key_class_member(b, x);
        lemma_key_class_member(a, y);
        assert forall|k: int| 0 <= k < b.len() && same_key(#[trigger] b[k], x) implies peer_le(y, x) by {
            if k > 0 {
                assert(peer_le(b[0], b[k]));
            }
            assert(peer_le(b[k], x));
            lemma_peer_le_trans(y, b[k], x);
        }
        assert forall|k: int| 0 <= k < a.len() && same_key(#[trigger] a[k], y) implies peer_le(x, y) by {
            if k > 0 {
                assert(peer_le(a[0], a[k]));
            }
            assert(peer_le(a[k], y));
            lemma_peer_le_trans(x, a[k], y);
        }
        let kb = choose|k: int| 0 <= k < b.len() && same_key(#[trigger] b[k], x);
        assert(peer_le(y, x));
        let ka = choose|k: int| 0 <= k < a.len() && same_key(#[trigger] a[k], y);
        assert(peer_le(x, y));
        if x.online == y.online {
            lemma_text_le_antisymmetric(x.nick@, y.nick@);
        }
        assert(same_key(x, y));
        // Same key: each is the first of the one class both classes equal.
        lemma_key_class_prepend(y, b.drop_first(), x);
        assert(key_class(a, x)[0] == x);
        assert(key_class(b, x)[0] == y);
        assert(x == y);
        assert forall|q: Peer| #[trigger] key_class(a.drop_first(), q) == key_class(b.drop_first(), q) by {
            lemma_key_class_prepend(x, a.drop_first(), q);
            lemma_key_class_prepend(y, b.drop_first(), q);
            if same_key(x, q) {
                assert(key_class(a.drop_first(), q) =~= key_class(a, q).drop_first());
                assert(key_class(b.drop_first(), q) =~= key_class(b, q).drop_first());
            }
        }
        assert forall|i: int, j: int| 0 <= i < j < a.drop_first().len() implies peer_le(
            #[trigger] a.drop_first()[i],
            #[trigger] a.drop_first()[j],
        ) by {
            assert(peer_le(a[i + 1], a[j + 1]));
        }
        assert forall|i: int, j: int| 0 <= i < j < b.drop_first().len() implies peer_le(
            #[trigger] b.drop_first()[i],
            #[trigger] b.drop_first()[j],
        ) by {
            assert(peer_le(b[i + 1], b[j + 1]));
        }
        lemma_peer_listing_unique(a.drop_first(), b.drop_first());
    }
}

} // verus!
