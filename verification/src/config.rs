//! Configuration: the folder names each kind of export data may go by, the
//! package and results directory templates, and their `{ID}` placeholder.
use vstd::prelude::*;
use crate::text::{chars_of, contains_seq, copy_str, occurs_at, push_char, push_str};

verus! {

/// The folder names under which each part of an export is looked for.
pub struct SourceAliases {
    pub account: Vec<String>,
    pub activity: Vec<String>,
    pub activities: Vec<String>,
    pub messages: Vec<String>,
    pub programs: Vec<String>,
    pub servers: Vec<String>,
    pub support_tickets: Vec<String>,
}

pub open spec fn names(v: Seq<String>) -> Seq<Seq<char>> {
    v.map_values(|s: String| s@)
}

fn one_name(n: &str) -> (r: Vec<String>)
    ensures
        names(r@) == seq![n@],
{
    let r = vec![copy_str(n)];
    assert(names(r@) =~= seq![n@]);
    r
}

pub fn default_account_aliases() -> (r: Vec<String>)
    ensures
        names(r@) == seq!["account"@],
{
    one_name("account")
}

pub fn default_activity_aliases() -> (r: Vec<String>)
    ensures
        names(r@) == seq!["activity"@],
{
    one_name("activity")
}

pub fn default_activities_aliases() -> (r: Vec<String>)
    ensures
        names(r@) == seq!["activities"@],
{
    one_name("activities")
}

pub fn default_messages_aliases() -> (r: Vec<String>)
    ensures
        names(r@) == seq!["messages"@],
{
    one_name("messages")
}

pub fn default_programs_aliases() -> (r: Vec<String>)
    ensures
        names(r@) == seq!["programs"@],
{
    one_name("programs")
}

pub fn default_servers_aliases() -> (r: Vec<String>)
    ensures
        names(r@) == seq!["servers"@],
{
    one_name("servers")
}

/// Support tickets go by several spellings.
pub fn default_support_tickets_aliases() -> (r: Vec<String>)
    ensures
        names(r@) == seq!["support_tickets"@, "support tickets"@, "support-tickets"@],
{
    let r = vec![copy_str("support_tickets"), copy_str("support tickets"), copy_str("support-tickets")];
    assert(names(r@) =~= seq!["support_tickets"@, "support tickets"@, "support-tickets"@]);
    r
}

/// Each part under its usual name; support tickets under three spellings.
pub open spec fn default_aliases(a: SourceAliases) -> bool {
    &&& names(a.account@) == seq!["account"@]
    &&& names(a.activity@) == seq!["activity"@]
    &&& names(a.activities@) == seq!["activities"@]
    &&& names(a.messages@) == seq!["messages"@]
    &&& names(a.programs@) == seq!["programs"@]
    &&& names(a.servers@) == seq!["servers"@]
    &&& names(a.support_tickets@) == seq!["support_tickets"@, "support tickets"@, "support-tickets"@]
}

impl Default for SourceAliases {
    fn default() -> (a: Self)
        ensures
            default_aliases(a),
    {
        SourceAliases {
            account: default_account_aliases(),
            activity: default_activity_aliases(),
            activities: default_activities_aliases(),
            messages: default_messages_aliases(),
            programs: default_programs_aliases(),
            servers: default_servers_aliases(),
            support_tickets: default_support_tickets_aliases(),
        }
    }
}

/// Where an export is read from and its results written, as templates in
/// which `{ID}` stands for the profile id.
pub struct AppConfig {
    pub package_directory: String,
    pub results_directory: String,
    pub source_aliases: SourceAliases,
}

impl Default for AppConfig {
    fn default() -> (c: Self)
        ensures
            c.package_directory@ == "./package{ID}"@,
            c.results_directory@ == "./results{ID}"@,
            default_aliases(c.source_aliases),
    {
        AppConfig {
            package_directory: copy_str("./package{ID}"),
            results_directory: copy_str("./results{ID}"),
            source_aliases: SourceAliases::default(),
        }
    }
}

/// `s.replace(p, r)` for a non-empty `p`: each leftmost, non-overlapping
/// occurrence of `p` replaced by `r`.
pub open spec fn replace_all(s: Seq<char>, p: Seq<char>, r: Seq<char>) -> Seq<char>
    decreases s.len(),
{
    if p.len() == 0 || s.len() < p.len() {
        s
    } else if s.take(p.len() as int) == p {
        r + replace_all(s.skip(p.len() as int), p, r)
    } else {
        seq![s[0]] + replace_all(s.skip(1), p, r)
    }
}

/// The directory template with every `{ID}` replaced by the profile id.
pub fn resolve_template_path(raw: &str, id: &str) -> (out: String)
    ensures
        out@ == replace_all(raw@, "{ID}"@, id@),
{
    let v = chars_of(raw);
    let p = chars_of("{ID}");
    proof {
        reveal_strlit("{ID}");
    }
    assert(p@.len() == 4);
    let mut out = String::new();
    let mut i: usize = 0;
    assert(v@.skip(0) =~= v@);
    while i < v.len()
        invariant
            i <= v@.len(),
            v@ == raw@,
            p@ == "{ID}"@,
            p@.len() == 4,
            out@ + replace_all(v@.skip(i as int), p@, id@) == replace_all(raw@, "{ID}"@, id@),
        decreases v@.len() - i,
    {
        let ghost rest = v@.skip(i as int);
        if v.len() - i >= 4 && v[i] == p[0] && v[i + 1] == p[1] && v[i + 2] == p[2] && v[i + 3] == p[3] {
            assert(rest.take(4) =~= p@);
            assert(rest.skip(4) =~= v@.skip(i + 4));
            let ghost before = out@;
            push_str(&mut out, id);
            assert(before + replace_all(rest, p@, id@) =~= out@ + replace_all(v@.skip(i + 4), p@, id@));
            i += 4;
        } else {
            proof {
            if rest.len() >= 4 {
                assert(rest.take(4) != p@) by {
                    if rest.take(4) == p@ {
                        assert(rest.take(4)[0] == v@[i as int]);
                        assert(rest.take(4)[1] == v@[i + 1]);
                        assert(rest.take(4)[2] == v@[i + 2]);
                        assert(rest.take(4)[3] == v@[i + 3]);
                    }
                }
                assert(rest.skip(1) =~= v@.skip(i + 1));
            } else {
                assert(replace_all(rest, p@, id@) == rest);
                assert(rest.skip(1) =~= v@.skip(i + 1));
                assert(replace_all(rest.skip(1), p@, id@) == rest.skip(1));
                assert(rest =~= seq![rest[0]] + rest.skip(1));
            }
            }
            let ghost before = out@;
            push_char(&mut out, v[i]);
            assert(before + replace_all(rest, p@, id@) =~= out@ + replace_all(v@.skip(i + 1), p@, id@));
            i += 1;
        }
    }
    assert(v@.skip(i as int) =~= Seq::<char>::empty());
    assert(out@ + Seq::<char>::empty() =~= out@);
    out
}

impl AppConfig {
    /// The package directory template for profile `id`.
    pub fn package_path(&self, id: &str) -> (out: String)
        ensures
            out@ == replace_all(self.package_directory@, "{ID}"@, id@),
    {
        resolve_template_path(self.package_directory.as_str(), id)
    }

    /// The results directory template for profile `id`.
    pub fn results_path(&self, id: &str) -> (out: String)
        ensures
            out@ == replace_all(self.results_directory@, "{ID}"@, id@),
    {
        resolve_template_path(self.results_directory.as_str(), id)
    }
}


/// Replacing in a text where the pattern never occurs leaves it as it is.
proof fn lemma_replace_absent(s: Seq<char>, p: Seq<char>, r: Seq<char>)
    requires
        !contains_seq(s, p),
    ensures
        replace_all(s, p, r) == s,
    decreases s.len(),
{
    if p.len() == 0 || s.len() < p.len() {
    } else {
        if s.take(p.len() as int) == p {
            assert(s.subrange(0, p.len() as int) =~= s.take(p.len() as int));
            assert(occurs_at(s, p, 0));
        }
        assert forall|i: int| !occurs_at(s.skip(1), p, i) by {
            if occurs_at(s.skip(1), p, i) {
                assert(s.skip(1).subrange(i, i + p.len()) =~= s.subrange(i + 1, i + 1 + p.len()));
                assert(occurs_at(s, p, i + 1));
            }
        }
        lemma_replace_absent(s.skip(1), p, r);
        assert(seq![s[0]] + s.skip(1) =~= s);
    }
}

/// A directory setting without the `{ID}` placeholder names the same
/// directory for every profile.
pub proof fn lemma_template_without_placeholder(raw: Seq<char>, id: Seq<char>)
    requires
        !contains_seq(raw, "{ID}"@),
    ensures
        replace_all(raw, "{ID}"@, id) == raw,
{
    lemma_replace_absent(raw, "{ID}"@, id);
}


// ---------------------------------------------------------------------------
// Interface settings
// ---------------------------------------------------------------------------

/// Settings changed from the settings screen.
pub struct InteractiveSettings {
    pub download_attachments: bool,
    /// Messages shown in a channel preview.
    pub preview_messages: usize,
}

impl Default for InteractiveSettings {
    fn default() -> (s: Self)
        ensures
            !s.download_attachments,
            s.preview_messages == 40,
    {
        InteractiveSettings { download_attachments: false, preview_messages: 40 }
    }
}

/// The preview length after Enter: five more, at most 500, and from 500
/// round to 10.
pub open spec fn cycled_preview(n: int) -> int {
    if n >= 500 {
        10
    } else if n + 5 < 500 {
        n + 5
    } else {
        500
    }
}

/// The preview length after an arrow: five more or fewer, kept within
/// 5..=500.
pub open spec fn adjusted_preview(current: int, direction: int) -> int {
    let next = current + direction * 5;
    if next < 5 {
        5
    } else if next > 500 {
        500
    } else {
        next
    }
}

impl InteractiveSettings {
    /// Enter on settings field `cursor`: the three path fields reopen the
    /// setup (`true` is returned and nothing changes), the preview length
    /// cycles, the download switch flips.
    pub fn apply_selection(&mut self, cursor: usize) -> (opens_setup: bool)
        ensures
            opens_setup == (cursor <= 2),
            final(self).preview_messages as int == if cursor == 3 {
                cycled_preview(old(self).preview_messages as int)
            } else {
                old(self).preview_messages as int
            },
            final(self).download_attachments == if cursor == 4 {
                !old(self).download_attachments
            } else {
                old(self).download_attachments
            },
    {
        if cursor <= 2 {
            return true;
        }
        if cursor == 3 {
            let n = self.preview_messages;
            self.preview_messages = if n >= 500 {
                10
            } else if n + 5 < 500 {
                n + 5
            } else {
                500
            };
        } else if cursor == 4 {
            self.download_attachments = !self.download_attachments;
        }
        false
    }

    /// Left (`direction` -1) or right (1) on settings field `cursor`;
    /// `true` when a setting changed.
    pub fn adjust(&mut self, cursor: usize, direction: i8) -> (changed: bool)
        requires
            cursor == 3 ==> i32::MIN <= (old(self).preview_messages as i32) + direction * 5 <= i32::MAX,
        ensures
            cursor == 3 ==> ({
                let cur = (old(self).preview_messages as i32) as int;
                let next = adjusted_preview(cur, direction as int);
                &&& changed == (next != cur)
                &&& final(self).preview_messages as int == if changed {
                    next
                } else {
                    old(self).preview_messages as int
                }
                &&& final(self).download_attachments == old(self).download_attachments
            }),
            cursor == 4 ==> changed && final(self).download_attachments == !old(self).download_attachments
                && final(self).preview_messages == old(self).preview_messages,
            cursor != 3 && cursor != 4 ==> !changed && final(self).preview_messages == old(self).preview_messages
                && final(self).download_attachments == old(self).download_attachments,
    {
        if cursor == 3 {
            let current = self.preview_messages as i32;
            let raw = current + (direction as i32) * 5;
            let next: i32 = if raw < 5 {
                5
            } else if raw > 500 {
                500
            } else {
                raw
            };
            if next != current {
                self.preview_messages = next as usize;
                return true;
            }
            false
        } else if cursor == 4 {
            self.download_attachments = !self.download_attachments;
            true
        } else {
            false
        }
    }
}

/// The settings cursor after Up (`down` false) or Down over the five
/// fields.
pub fn settings_cursor_step(cursor: usize, down: bool) -> (r: usize)
    ensures
        r == if down {
            if cursor + 1 < 5 {
                cursor + 1
            } else {
                cursor as int
            }
        } else if cursor > 0 {
            cursor - 1
        } else {
            0
        },
{
    if down {
        if cursor < 4 {
            cursor + 1
        } else {
            cursor
        }
    } else {
        cursor.saturating_sub(1)
    }
}


/// The arrows keep the preview length between 5 and 500 messages.
pub proof fn lemma_preview_in_range(current: int, direction: int)
    ensures
        5 <= adjusted_preview(current, direction) <= 500,
        5 <= current <= 500 ==> 5 <= cycled_preview(current) <= 500,
{
}

} // verus!
