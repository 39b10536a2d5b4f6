//! Message channels as listed in the browser: their kind, id and title,
//! the listing order, and the preview lines of their last messages.
use vstd::prelude::*;
use crate::insights::{opt_ref, reordered};
use crate::json::{
    channel_title, channel_title_spec, get, key_views, obj_get, pick_str, pick_str_spec,
    plain_text, value_to_plain_string, JsonValue,
};
use crate::order::{as_ints, key_view, key_views as sort_key_views, sort_order, stable_order, KeyView, SortKey};
use crate::text::{
    contains_seq, contains_str, copy_str, has_prefix, occurs_at, push_str, starts_with, str_eq,
    lower_seq, to_ascii_uppercase, upper_char, lower_char, upper_seq,
};

verus! {

/// What kind of conversation a channel is.
#[derive(Clone, Copy, PartialEq, Eq, Debug, Structural)]
pub enum ChannelKind {
    Dm,
    GroupDm,
    PublicThread,
    Voice,
    Guild,
    Other,
}

pub open spec fn kind_label(k: ChannelKind) -> Seq<char> {
    match k {
        ChannelKind::Dm => "DM"@,
        ChannelKind::GroupDm => "GROUP_DM"@,
        ChannelKind::PublicThread => "PUBLIC_THREAD"@,
        ChannelKind::Voice => "VOICE"@,
        ChannelKind::Guild => "GUILD"@,
        ChannelKind::Other => "OTHER"@,
    }
}

impl ChannelKind {
    pub fn label(self) -> (r: &'static str)
        ensures
            r@ == kind_label(self),
    {
        match self {
            ChannelKind::Dm => "DM",
            ChannelKind::GroupDm => "GROUP_DM",
            ChannelKind::PublicThread => "PUBLIC_THREAD",
            ChannelKind::Voice => "VOICE",
            ChannelKind::Guild => "GUILD",
            ChannelKind::Other => "OTHER",
        }
    }
}

/// The kind a channel type names, compared in ASCII upper case.
pub open spec fn kind_of_type(raw: Seq<char>) -> ChannelKind {
    let u = upper_seq(raw);
    if u == "DM"@ {
        ChannelKind::Dm
    } else if u == "GROUP_DM"@ {
        ChannelKind::GroupDm
    } else if contains_seq(u, "PUBLIC_THREAD"@) {
        ChannelKind::PublicThread
    } else if contains_seq(u, "VOICE"@) {
        ChannelKind::Voice
    } else if has_prefix(u, "GUILD"@) {
        ChannelKind::Guild
    } else {
        ChannelKind::Other
    }
}

pub fn detect_channel_kind_str(raw_type: &str) -> (k: ChannelKind)
    ensures
        k == kind_of_type(raw_type@),
{
    let u = to_ascii_uppercase(raw_type);
    if str_eq(u.as_str(), "DM") {
        ChannelKind::Dm
    } else if str_eq(u.as_str(), "GROUP_DM") {
        ChannelKind::GroupDm
    } else if contains_str(u.as_str(), "PUBLIC_THREAD") {
        ChannelKind::PublicThread
    } else if contains_str(u.as_str(), "VOICE") {
        ChannelKind::Voice
    } else if starts_with(u.as_str(), "GUILD") {
        ChannelKind::Guild
    } else {
        ChannelKind::Other
    }
}

/// The channel type of `channel.json`: the rendering of `type` when that
/// member exists, else of `channel_type`; `unknown` when there is none.
pub open spec fn channel_type_text(channel: JsonValue) -> Seq<char> {
    let member = match obj_get(channel, "type"@) {
        Some(v) => Some(v),
        None => obj_get(channel, "channel_type"@),
    };
    match member {
        Some(v) => match plain_text(v) {
            Some(s) => s,
            None => "unknown"@,
        },
        None => "unknown"@,
    }
}

pub open spec fn channel_kind_spec(channel: Option<JsonValue>) -> ChannelKind {
    match channel {
        Some(c) => kind_of_type(channel_type_text(c)),
        None => ChannelKind::Other,
    }
}

pub fn detect_channel_kind(channel: Option<&JsonValue>) -> (k: ChannelKind)
    ensures
        k == channel_kind_spec(opt_ref(channel)),
{
    match channel {
        None => ChannelKind::Other,
        Some(c) => {
            let member = match get(c, "type") {
                Some(v) => Some(v),
                None => get(c, "channel_type"),
            };
            let raw = match member {
                Some(v) => match value_to_plain_string(v) {
                    Some(s) => s,
                    None => copy_str("unknown"),
                },
                None => copy_str("unknown"),
            };
            detect_channel_kind_str(raw.as_str())
        },
    }
}

/// One channel of the messages folder.
pub struct MessageChannel {
    pub id: String,
    pub title: String,
    pub kind: ChannelKind,
    pub message_count: usize,
    /// Path of the channel's `messages.json`.
    pub messages_path: String,
    /// Folder name under the messages folder: the key into the analysis
    /// cache.
    pub dir_name: String,
}

/// The channel id: the rendering of `channel.json`'s `id`, else the folder
/// name.
pub open spec fn channel_id_spec(channel: Option<JsonValue>, dir_name: Seq<char>) -> Seq<char> {
    match channel {
        Some(c) => match obj_get(c, "id"@) {
            Some(v) => match plain_text(v) {
                Some(s) => s,
                None => dir_name,
            },
            None => dir_name,
        },
        None => dir_name,
    }
}

/// A channel known from an earlier analysis: its cached message count,
/// title and type.
pub fn channel_from_cache(
    dir_name: &str,
    messages_path: &str,
    count: u64,
    title: &str,
    type_str: &str,
) -> (c: MessageChannel)
    requires
        count <= usize::MAX,
    ensures
        c.id@ == dir_name@,
        c.dir_name@ == dir_name@,
        c.title@ == title@,
        c.kind == kind_of_type(type_str@),
        c.message_count == count,
        c.messages_path@ == messages_path@,
{
    MessageChannel {
        id: copy_str(dir_name),
        title: copy_str(title),
        kind: detect_channel_kind_str(type_str),
        message_count: count as usize,
        messages_path: copy_str(messages_path),
        dir_name: copy_str(dir_name),
    }
}

/// A channel read from its folder: `channel.json` (`None` when missing or
/// unreadable) and the number of records in `messages.json`.
pub fn channel_from_json(
    dir_name: &str,
    messages_path: &str,
    channel: Option<&JsonValue>,
    message_count: usize,
) -> (c: MessageChannel)
    ensures
        c.id@ == channel_id_spec(opt_ref(channel), dir_name@),
        c.title@ == channel_title_spec(opt_ref(channel), c.id@),
        c.kind == channel_kind_spec(opt_ref(channel)),
        c.message_count == message_count,
        c.messages_path@ == messages_path@,
        c.dir_name@ == dir_name@,
{
    let id = match channel {
        Some(ch) => match get(ch, "id") {
            Some(v) => match value_to_plain_string(v) {
                Some(s) => s,
                None => copy_str(dir_name),
            },
            None => copy_str(dir_name),
        },
        None => copy_str(dir_name),
    };
    let title = channel_title(channel, id.as_str());
    MessageChannel {
        id,
        title,
        kind: detect_channel_kind(channel),
        message_count,
        messages_path: copy_str(messages_path),
        dir_name: copy_str(dir_name),
    }
}

/// Channels are listed busiest first, then by title.
pub open spec fn channel_keys(v: Seq<MessageChannel>) -> Seq<KeyView> {
    v.map_values(|c: MessageChannel| (c.message_count as u64, Seq::<char>::empty(), Seq::<char>::empty(), c.title@, Seq::<char>::empty(), Seq::<char>::empty()))
}

fn copy_channel(c: &MessageChannel) -> (r: MessageChannel)
    ensures
        r == *c,
{
    MessageChannel {
        id: c.id.clone(),
        title: c.title.clone(),
        kind: c.kind,
        message_count: c.message_count,
        messages_path: c.messages_path.clone(),
        dir_name: c.dir_name.clone(),
    }
}

/// Orders channels busiest first, ties by title, then as found.
pub fn sort_channels(v: &mut Vec<MessageChannel>)
    ensures
        reordered(old(v)@, channel_keys(old(v)@), final(v)@),
{
    let mut keys: Vec<SortKey> = Vec::new();
    let mut i: usize = 0;
    while i < v.len()
        invariant
            i <= v@.len(),
            sort_key_views(keys@) == channel_keys(v@).take(i as int),
        decreases v@.len() - i,
    {
        let ghost before = keys@;
        let key = SortKey { weight: v[i].message_count as u64, desc: String::new(), desc2: String::new(), asc: v[i].title.clone(), desc3: String::new(), asc2: String::new() };
        keys.push(key);
        assert(sort_key_views(keys@) =~= sort_key_views(before).push(key_view(key)));
        i += 1;
        assert(channel_keys(v@).take(i as int) =~= channel_keys(v@).take(i - 1).push(
            (v@[i - 1].message_count as u64, Seq::<char>::empty(), Seq::<char>::empty(), v@[i - 1].title@, Seq::<char>::empty(), Seq::<char>::empty()),
        ));
    }
    assert(sort_key_views(keys@) =~= channel_keys(v@));
    let idx = sort_order(&keys);
    let mut out: Vec<MessageChannel> = Vec::new();
    let mut k: usize = 0;
    while k < idx.len()
        invariant
            k <= idx@.len(),
            stable_order(channel_keys(v@), as_ints(idx@)),
            out@.len() == k,
            forall|q: int| 0 <= q < k ==> out@[q] == v@[idx@[q] as int],
        decreases idx@.len() - k,
    {
        assert(as_ints(idx@)[k as int] == idx@[k as int] as int);
        out.push(copy_channel(&v[idx[k]]));
        k += 1;
    }
    proof {
        let ids = as_ints(idx@);
        assert forall|q: int| 0 <= q < out@.len() implies out@[q] == v@[ids[q]] by {
            assert(ids[q] == idx@[q] as int);
        }
    }
    *v = out;
}

// ---------------------------------------------------------------------------
// Preview lines
// ---------------------------------------------------------------------------

pub open spec fn timestamp_names() -> Seq<Seq<char>> {
    seq!["Timestamp"@, "timestamp"@, "timestamp_ms"@, "date"@]
}

pub open spec fn content_names() -> Seq<Seq<char>> {
    seq!["Contents"@, "Content"@, "content"@, "message_content"@]
}

pub open spec fn attachment_names() -> Seq<Seq<char>> {
    seq!["Attachments"@, "attachments"@]
}

/// `- [timestamp] content | attachments: ...`, with `<empty>` for a message
/// with neither content nor attachments.
pub open spec fn preview_line_spec(rec: JsonValue) -> Seq<char> {
    let ts = match pick_str_spec(rec, timestamp_names()) {
        Some(t) => t,
        None => "unknown"@,
    };
    let content = match pick_str_spec(rec, content_names()) {
        Some(c) => c,
        None => Seq::empty(),
    };
    let att = match pick_str_spec(rec, attachment_names()) {
        Some(a) => a,
        None => Seq::empty(),
    };
    let head = "- ["@ + ts + "] "@;
    if content.len() == 0 && att.len() == 0 {
        head + "<empty>"@
    } else if att.len() == 0 {
        head + content
    } else {
        head + content + " | attachments: "@ + att
    }
}

pub fn preview_line(rec: &JsonValue) -> (out: String)
    ensures
        out@ == preview_line_spec(*rec),
{
    let kt = ["Timestamp", "timestamp", "timestamp_ms", "date"];
    assert(key_views(kt@) =~= timestamp_names());
    let kc = ["Contents", "Content", "content", "message_content"];
    assert(key_views(kc@) =~= content_names());
    let ka = ["Attachments", "attachments"];
    assert(key_views(ka@) =~= attachment_names());
    let ts = match pick_str(rec, &kt) {
        Some(t) => t.clone(),
        None => copy_str("unknown"),
    };
    let content = match pick_str(rec, &kc) {
        Some(c) => c.clone(),
        None => String::new(),
    };
    let att = match pick_str(rec, &ka) {
        Some(a) => a.clone(),
        None => String::new(),
    };
    let mut out = copy_str("- [");
    push_str(&mut out, ts.as_str());
    push_str(&mut out, "] ");
    let content_empty = content.as_str().is_empty();
    let att_empty = att.as_str().is_empty();
    if content_empty && att_empty {
        push_str(&mut out, "<empty>");
    } else if att_empty {
        push_str(&mut out, content.as_str());
    } else {
        push_str(&mut out, content.as_str());
        push_str(&mut out, " | attachments: ");
        push_str(&mut out, att.as_str());
    }
    assert(out@ =~= preview_line_spec(*rec));
    out
}

/// The preview lines of a channel's last `preview_count` messages: of the
/// records read from its `messages.json` (oldest first), only the last
/// `preview_count` are rendered, in order; a count of 0 gives none.
pub fn load_message_preview(records: &Vec<JsonValue>, preview_count: usize) -> (lines: Vec<String>)
    ensures
        lines@.len() == if records@.len() < preview_count {
            records@.len() as int
        } else {
            preview_count as int
        },
        forall|i: int|
            0 <= i < lines@.len() ==> (#[trigger] lines@[i])@ == preview_line_spec(
                records@[records@.len() - lines@.len() + i],
            ),
{
    let start: usize = if records.len() < preview_count {
        0
    } else {
        records.len() - preview_count
    };
    let mut lines: Vec<String> = Vec::new();
    let mut i: usize = start;
    while i < records.len()
        invariant
            start <= i <= records@.len(),
            lines@.len() == i - start,
            forall|q: int| 0 <= q < lines@.len() ==> (#[trigger] lines@[q])@ == preview_line_spec(records@[start + q]),
        decreases records@.len() - i,
    {
        lines.push(preview_line(&records[i]));
        i += 1;
    }
    lines
}


/// The letter case of a channel type never changes the kind it names.
pub proof fn lemma_kind_ignores_case(raw: Seq<char>)
    ensures
        kind_of_type(upper_seq(raw)) == kind_of_type(raw),
        kind_of_type(lower_seq(raw)) == kind_of_type(raw),
{
    assert forall|i: int| 0 <= i < raw.len() implies upper_char(upper_char(#[trigger] raw[i])) == upper_char(raw[i])
        && upper_char(lower_char(raw[i])) == upper_char(raw[i]) by {
        let c = raw[i];
        let u = c as u32;
        if 97 <= u <= 122 {
            assert(((u - 32) as char) as u32 == u - 32);
        }
        if 65 <= u <= 90 {
            assert(((u + 32) as char) as u32 == u + 32);
        }
    }
    assert(upper_seq(upper_seq(raw)) =~= upper_seq(raw));
    assert(upper_seq(lower_seq(raw)) =~= upper_seq(raw));
}

/// A kind's label names that kind again, in any letter case.
pub proof fn lemma_kind_label_round_trip(k: ChannelKind)
    ensures
        kind_of_type(kind_label(k)) == k,
        kind_of_type(lower_seq(kind_label(k))) == k,
        kind_of_type(upper_seq(kind_label(k))) == k,
{
    reveal_strlit("DM");
    reveal_strlit("GROUP_DM");
    reveal_strlit("PUBLIC_THREAD");
    reveal_strlit("VOICE");
    reveal_strlit("GUILD");
    reveal_strlit("OTHER");
    let l = kind_label(k);
    assert(upper_seq(l) =~= l);
    let pt = "PUBLIC_THREAD"@;
    let vo = "VOICE"@;
    let gu = "GUILD"@;
    match k {
        ChannelKind::Dm => {},
        ChannelKind::GroupDm => {},
        ChannelKind::PublicThread => {
            assert(l.subrange(0, pt.len() as int) =~= pt);
            assert(occurs_at(l, pt, 0));
        },
        ChannelKind::Voice => {
            assert(l.subrange(0, vo.len() as int) =~= vo);
            assert(occurs_at(l, vo, 0));
        },
        ChannelKind::Guild => {
            assert forall|i: int| !occurs_at(l, vo, i) by {
                if occurs_at(l, vo, i) {
                    assert(i == 0);
                    assert(l.subrange(0, 5)[0] == vo[0]);
                }
            }
            assert(l.subrange(0, gu.len() as int) =~= gu);
        },
        ChannelKind::Other => {
            assert forall|i: int| !occurs_at(l, vo, i) by {
                if occurs_at(l, vo, i) {
                    assert(i == 0);
                    assert(l.subrange(0, 5)[0] == vo[0]);
                }
            }
            if has_prefix(l, gu) {
                assert(l.subrange(0, 5)[0] == gu[0]);
            }
        },
    }
    lemma_kind_ignores_case(l);
}

} // verus!
