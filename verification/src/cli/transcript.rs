//! Replaying a loaded session's history as transcript items: prompts, the
//! assistant's text, tool blocks paired with their results, skill blocks
//! and compaction notices, in the order the live stream would have shown
//! them.
use vstd::prelude::*;
use crate::agent::session::{AgentMessage, Message, Role, ToolCall};
use crate::ai::message::{copy_opt_string, copy_string, opt_view};
use crate::text::{chars_of, dec, eq_str, find_from, find_chars, fmt_usize, prefix_of, push_str, starts_with_chars, string_of,
    sub_chars};

verus! {

broadcast use vstd::seq_lib::group_seq_properties;

/// One item the transcript shows.
#[derive(Clone, Debug, PartialEq, Eq)]
pub enum RenderItem {
    /// A prompt the user typed, boxed.
    UserPrompt(String),
    /// An active skill: its name and inner content.
    Skill { name: String, content: String },
    /// Assistant text.
    Text(String),
    /// A tool call, pending its result.
    ToolStart { tool_call_id: String, name: String, arguments: String },
    /// A tool call's result; `ok` is false for an error result.
    ToolResult { tool_call_id: String, name: String, ok: bool, result: String },
    /// A one-line notice.
    Notice(String),
}

pub ghost enum ItemView {
    UserPrompt(Seq<char>),
    Skill(Seq<char>, Seq<char>),
    Text(Seq<char>),
    ToolStart(Seq<char>, Seq<char>, Seq<char>),
    ToolResult(Seq<char>, Seq<char>, bool, Seq<char>),
    Notice(Seq<char>),
}

pub open spec fn item_view(i: RenderItem) -> ItemView {
    match i {
        RenderItem::UserPrompt(t) => ItemView::UserPrompt(t@),
        RenderItem::Skill { name, content } => ItemView::Skill(name@, content@),
        RenderItem::Text(t) => ItemView::Text(t@),
        RenderItem::ToolStart { tool_call_id, name, arguments } => ItemView::ToolStart(
            tool_call_id@,
            name@,
            arguments@,
        ),
        RenderItem::ToolResult { tool_call_id, name, ok, result } => ItemView::ToolResult(
            tool_call_id@,
            name@,
            ok,
            result@,
        ),
        RenderItem::Notice(t) => ItemView::Notice(t@),
    }
}

pub open spec fn item_views(v: Seq<RenderItem>) -> Seq<ItemView> {
    v.map_values(|i: RenderItem| item_view(i))
}

/// The opening of a skill block.
pub open spec fn skill_open() -> Seq<char> {
    "<skill name=\""@
}

/// The close of a skill block, on its own line.
pub open spec fn skill_close() -> Seq<char> {
    "\n</skill>"@
}

/// Where a skill block's content starts: after the opening tag's `>` and
/// the newline that ends that line.
pub open spec fn content_start(t: Seq<char>, gt: nat) -> nat {
    if gt + 1 < t.len() && t[gt + 1int] == '\n' {
        gt + 2
    } else {
        gt + 1
    }
}

/// A text that starts with a skill block `<skill name="NAME" ...>` and
/// holds its `</skill>` close: the skill's name and the content between the
/// opening tag's line and the close. Anything after the close is not part
/// of the block.
pub open spec fn spec_skill_block(t: Seq<char>) -> Option<(Seq<char>, Seq<char>)> {
    if !prefix_of(skill_open(), t) {
        None
    } else {
        match find_from(t, "\""@, skill_open().len()) {
            None => None,
            Some(q) => match find_from(t, ">"@, q + 1) {
                None => None,
                Some(gt) => match find_from(t, skill_close(), content_start(t, gt)) {
                    None => None,
                    Some(e) => Some((t.subrange(skill_open().len() as int, q as int), t.subrange(content_start(t, gt) as int, e as int))),
                },
            },
        }
    }
}

proof fn lemma_find_from_bounds(s: Seq<char>, p: Seq<char>, i: nat)
    ensures
        find_from(s, p, i) matches Some(k) ==> i <= k && k + p.len() <= s.len(),
    decreases s.len() - i,
{
    if i + p.len() > s.len() {
    } else if crate::text::match_at(s, p, i as int) {
    } else if i >= s.len() {
    } else {
        lemma_find_from_bounds(s, p, i + 1);
    }
}

/// Split a skill block into its name and content (see [`spec_skill_block`]).
pub fn parse_skill_block(text: &str) -> (r: Option<(String, String)>)
    ensures
        match r {
            Some((n, c)) => spec_skill_block(text@) == Some((n@, c@)),
            None => spec_skill_block(text@) is None,
        },
{
    let t = chars_of(text);
    let len = t.len();
    let open = chars_of("<skill name=\"");
    proof {
        reveal_strlit("<skill name=\"");
    }
    if !starts_with_chars(&t, &open) {
        return None;
    }
    let quote = chars_of("\"");
    let q = match find_chars(&t, &quote, open.len()) {
        None => return None,
        Some(q) => q,
    };
    proof {
        reveal_strlit("\"");
        lemma_find_from_bounds(t@, quote@, open@.len());
        assert(quote@.len() == 1);
        assert(q + 1 <= len);
    }
    let close_angle = chars_of(">");
    let gt = match find_chars(&t, &close_angle, q + 1) {
        None => return None,
        Some(g) => g,
    };
    proof {
        reveal_strlit(">");
        lemma_find_from_bounds(t@, close_angle@, (q + 1) as nat);
        assert(close_angle@.len() == 1);
        assert(gt + 1 <= len);
    }
    let start = if gt + 1 < t.len() && t[gt + 1] == '\n' {
        gt + 2
    } else {
        gt + 1
    };
    assert(start == content_start(t@, gt as nat));
    let close = chars_of("\n</skill>");
    let e = match find_chars(&t, &close, start) {
        None => return None,
        Some(e) => e,
    };
    proof {
        lemma_find_from_bounds(t@, close@, start as nat);
    }
    let name = string_of(&sub_chars(&t, open.len(), q));
    let content = string_of(&sub_chars(&t, start, e));
    Some((name, content))
}

/// The latest binding of `k` in an association list, where `None` marks a
/// removed binding.
pub open spec fn assoc_get<V>(v: Seq<(Seq<char>, Option<V>)>, k: Seq<char>) -> Option<V>
    decreases v.len(),
{
    if v.len() == 0 {
        None
    } else if v.last().0 == k {
        v.last().1
    } else {
        assoc_get(v.drop_last(), k)
    }
}

/// An association list stands for the map `m`.
pub open spec fn agrees<V>(v: Seq<(Seq<char>, Option<V>)>, m: Map<Seq<char>, V>) -> bool {
    forall|k: Seq<char>| #[trigger] assoc_get(v, k) == (if m.contains_key(k) {
        Some(m[k])
    } else {
        None
    })
}

proof fn lemma_agrees_push<V>(v: Seq<(Seq<char>, Option<V>)>, m: Map<Seq<char>, V>, k: Seq<char>, o: Option<V>)
    requires
        agrees(v, m),
    ensures
        agrees(
            v.push((k, o)),
            match o {
                Some(x) => m.insert(k, x),
                None => m.remove(k),
            },
        ),
{
    assert(v.push((k, o)).drop_last() == v);
    let m2 = match o {
        Some(x) => m.insert(k, x),
        None => m.remove(k),
    };
    assert forall|j: Seq<char>| #[trigger] assoc_get(v.push((k, o)), j) == (if m2.contains_key(j) {
        Some(m2[j])
    } else {
        None
    }) by {
        if j != k {
            assert(assoc_get(v, j) == (if m.contains_key(j) {
                Some(m[j])
            } else {
                None
            }));
        }
    }
}

/// The call ids awaiting a result, with the tool each called, and the skill
/// blocks that tool results carry, by call id.
pub ghost struct ReplayNames {
    pub names: Map<Seq<char>, Seq<char>>,
    pub skills: Map<Seq<char>, (Seq<char>, Seq<char>)>,
}

/// The skill blocks the history's tool results carry, by the id of the call
/// they answer (a later result for the same id wins).
pub open spec fn skill_reads(ms: Seq<AgentMessage>) -> Map<Seq<char>, (Seq<char>, Seq<char>)>
    decreases ms.len(),
{
    if ms.len() == 0 {
        Map::empty()
    } else {
        let m = skill_reads(ms.drop_last());
        match ms.last() {
            AgentMessage::Llm(x) => if x.role == Role::Tool && opt_view(x.tool_call_id) is Some && spec_skill_block(
                x.content(),
            ) is Some {
                m.insert(opt_view(x.tool_call_id)->0, spec_skill_block(x.content())->0)
            } else {
                m
            },
            AgentMessage::CompactSummary { .. } => m,
        }
    }
}

/// An assistant message's tool calls: each becomes a pending tool block and
/// remembers its tool's name, except a call whose result is a skill block,
/// which shows nothing until that result.
pub open spec fn calls_items(st: ReplayNames, calls: Seq<ToolCall>) -> (ReplayNames, Seq<ItemView>)
    decreases calls.len(),
{
    if calls.len() == 0 {
        (st, Seq::empty())
    } else {
        let (s1, items) = calls_items(st, calls.drop_last());
        let c = calls.last();
        if s1.skills.contains_key(c.id@) {
            (s1, items)
        } else {
            (
                ReplayNames { names: s1.names.insert(c.id@, c.name@), skills: s1.skills },
                items.push(ItemView::ToolStart(c.id@, c.name@, c.arguments@)),
            )
        }
    }
}

/// The notice a compaction checkpoint replays as.
pub open spec fn compacted_notice(tokens_before: nat) -> Seq<char> {
    "context compacted ("@ + dec(tokens_before) + " tokens before)"@
}

/// What one history entry shows: a checkpoint a notice; a user message its
/// skill block or its prompt; an assistant message its text (when not
/// empty) and its tool calls; a tool result the skill block it carries, or
/// a result block named after the call it answers (`tool` when that call
/// was never seen), failed when its text starts with `Error: `; a system
/// message nothing.
pub open spec fn entry_items(st: ReplayNames, m: AgentMessage) -> (ReplayNames, Seq<ItemView>) {
    match m {
        AgentMessage::CompactSummary { tokens_before, .. } => (
            st,
            seq![ItemView::Notice(compacted_notice(tokens_before as nat))],
        ),
        AgentMessage::Llm(x) => match x.role {
            Role::User => (
                st,
                seq![
                    match spec_skill_block(x.content()) {
                        Some((n, c)) => ItemView::Skill(n, c),
                        None => ItemView::UserPrompt(x.content()),
                    },
                ],
            ),
            Role::Assistant => {
                let (s1, items) = calls_items(st, x.tool_calls@);
                (
                    s1,
                    (if x.content().len() > 0 {
                        seq![ItemView::Text(x.content())]
                    } else {
                        Seq::empty()
                    }) + items,
                )
            },
            Role::Tool => {
                let id = match opt_view(x.tool_call_id) {
                    Some(i) => i,
                    None => Seq::empty(),
                };
                if st.skills.contains_key(id) {
                    (
                        ReplayNames { names: st.names, skills: st.skills.remove(id) },
                        seq![ItemView::Skill(st.skills[id].0, st.skills[id].1)],
                    )
                } else {
                    let name = if st.names.contains_key(id) {
                        st.names[id]
                    } else {
                        "tool"@
                    };
                    (
                        ReplayNames { names: st.names.remove(id), skills: st.skills },
                        seq![ItemView::ToolResult(id, name, !prefix_of("Error: "@, x.content()), x.content())],
                    )
                }
            },
            Role::System => (st, Seq::empty()),
        },
    }
}

pub open spec fn history_fold(ms: Seq<AgentMessage>, skills: Map<Seq<char>, (Seq<char>, Seq<char>)>) -> (
    ReplayNames,
    Seq<ItemView>,
)
    decreases ms.len(),
{
    if ms.len() == 0 {
        (ReplayNames { names: Map::empty(), skills }, Seq::empty())
    } else {
        let (s1, items) = history_fold(ms.drop_last(), skills);
        let (s2, more) = entry_items(s1, ms.last());
        (s2, items + more)
    }
}

/// The transcript a history replays to.
pub open spec fn spec_history_items(ms: Seq<AgentMessage>) -> Seq<ItemView> {
    history_fold(ms, skill_reads(ms)).1
}

spec fn name_view(v: Seq<(String, Option<String>)>) -> Seq<(Seq<char>, Option<Seq<char>>)> {
    v.map_values(|p: (String, Option<String>)| (p.0@, opt_view(p.1)))
}

spec fn pair_view(o: Option<(String, String)>) -> Option<(Seq<char>, Seq<char>)> {
    match o {
        Some((a, b)) => Some((a@, b@)),
        None => None,
    }
}

spec fn skill_view(v: Seq<(String, Option<(String, String)>)>) -> Seq<(Seq<char>, Option<(Seq<char>, Seq<char>)>)> {
    v.map_values(|p: (String, Option<(String, String)>)| (p.0@, pair_view(p.1)))
}

fn lookup_name(v: &Vec<(String, Option<String>)>, k: &str) -> (r: Option<String>)
    ensures
        opt_view(r) == assoc_get(name_view(v@), k@),
{
    let mut i = v.len();
    assert(name_view(v@).subrange(0, i as int) == name_view(v@));
    while i > 0
        invariant
            i <= v@.len(),
            assoc_get(name_view(v@), k@) == assoc_get(name_view(v@).subrange(0, i as int), k@),
        decreases i,
    {
        assert(name_view(v@).subrange(0, i as int).drop_last() == name_view(v@).subrange(0, i - 1));
        if eq_str(v[i - 1].0.as_str(), k) {
            return copy_opt_string(&v[i - 1].1);
        }
        i = i - 1;
    }
    None
}

fn lookup_skill(v: &Vec<(String, Option<(String, String)>)>, k: &str) -> (r: Option<(String, String)>)
    ensures
        pair_view(r) == assoc_get(skill_view(v@), k@),
{
    let mut i = v.len();
    assert(skill_view(v@).subrange(0, i as int) == skill_view(v@));
    while i > 0
        invariant
            i <= v@.len(),
            assoc_get(skill_view(v@), k@) == assoc_get(skill_view(v@).subrange(0, i as int), k@),
        decreases i,
    {
        assert(skill_view(v@).subrange(0, i as int).drop_last() == skill_view(v@).subrange(0, i - 1));
        if eq_str(v[i - 1].0.as_str(), k) {
            return match &v[i - 1].1 {
                Some((a, b)) => Some((a.clone(), b.clone())),
                None => None,
            };
        }
        i = i - 1;
    }
    None
}

fn push_item(out: &mut Vec<RenderItem>, item: RenderItem)
    ensures
        item_views(final(out)@) == item_views(old(out)@).push(item_view(item)),
{
    let ghost before = out@;
    out.push(item);
    assert(item_views(out@) == item_views(before).push(item_view(item)));
}

/// The skill blocks the history's tool results carry, by call id.
fn collect_skill_reads(messages: &[AgentMessage]) -> (r: Vec<(String, Option<(String, String)>)>)
    ensures
        agrees(skill_view(r@), skill_reads(messages@)),
{
    let ghost ms = messages@;
    let mut r: Vec<(String, Option<(String, String)>)> = Vec::new();
    let mut i: usize = 0;
    while i < messages.len()
        invariant
            i <= ms.len(),
            ms == messages@,
            agrees(skill_view(r@), skill_reads(ms.subrange(0, i as int))),
        decreases messages.len() - i,
    {
        assert(ms.subrange(0, i + 1).drop_last() == ms.subrange(0, i as int));
        assert(ms.subrange(0, i + 1).last() == ms[i as int]);
        match &messages[i] {
            AgentMessage::Llm(x) => {
                if x.role == Role::Tool {
                    match &x.tool_call_id {
                        Some(id) => {
                            let text = x.text_content();
                            match parse_skill_block(text.as_str()) {
                                Some(pair) => {
                                    let ghost before = r@;
                                    let entry = (id.clone(), Some(pair));
                                    proof {
                                        lemma_agrees_push(
                                            skill_view(before),
                                            skill_reads(ms.subrange(0, i as int)),
                                            entry.0@,
                                            pair_view(entry.1),
                                        );
                                    }
                                    r.push(entry);
                                    assert(skill_view(r@) == skill_view(before).push((entry.0@, pair_view(entry.1))));
                                },
                                None => {},
                            }
                        },
                        None => {},
                    }
                }
            },
            AgentMessage::CompactSummary { .. } => {},
        }
        i = i + 1;
    }
    assert(ms.subrange(0, ms.len() as int) == ms);
    r
}

/// Replay an assistant message's tool calls (see [`calls_items`]).
fn replay_calls(
    calls: &Vec<ToolCall>,
    names: &mut Vec<(String, Option<String>)>,
    skills: &Vec<(String, Option<(String, String)>)>,
    out: &mut Vec<RenderItem>,
    Ghost(st): Ghost<ReplayNames>,
)
    requires
        agrees(name_view(old(names)@), st.names),
        agrees(skill_view(skills@), st.skills),
    ensures
        agrees(name_view(final(names)@), calls_items(st, calls@).0.names),
        calls_items(st, calls@).0.skills == st.skills,
        item_views(final(out)@) == item_views(old(out)@) + calls_items(st, calls@).1,
{
    let ghost start = item_views(out@);
    let mut k: usize = 0;
    while k < calls.len()
        invariant
            k <= calls@.len(),
            agrees(skill_view(skills@), st.skills),
            agrees(name_view(names@), calls_items(st, calls@.subrange(0, k as int)).0.names),
            calls_items(st, calls@.subrange(0, k as int)).0.skills == st.skills,
            item_views(out@) == start + calls_items(st, calls@.subrange(0, k as int)).1,
        decreases calls.len() - k,
    {
        let ghost pre = calls_items(st, calls@.subrange(0, k as int));
        assert(calls@.subrange(0, k + 1).drop_last() == calls@.subrange(0, k as int));
        assert(calls@.subrange(0, k + 1).last() == calls@[k as int]);
        let c = &calls[k];
        let skill = lookup_skill(skills, c.id.as_str());
        assert(pre.0.skills.contains_key(c.id@) == (assoc_get(skill_view(skills@), c.id@) is Some));
        if skill.is_none() {
            let ghost before = names@;
            let entry = (c.id.clone(), Some(c.name.clone()));
            proof {
                lemma_agrees_push(name_view(before), pre.0.names, entry.0@, opt_view(entry.1));
            }
            names.push(entry);
            assert(name_view(names@) == name_view(before).push((entry.0@, opt_view(entry.1))));
            push_item(
                out,
                RenderItem::ToolStart { tool_call_id: c.id.clone(), name: c.name.clone(), arguments: c.arguments.clone() },
            );
        }
        k = k + 1;
    }
    assert(calls@.subrange(0, calls@.len() as int) == calls@);
}

/// Replay a loaded history as the transcript items it shows (see
/// [`entry_items`]): a tool result is paired with the call it answers by
/// id, a tool result carrying a skill block shows as that skill (its call
/// shows nothing), and a result whose call was never seen still gets its own
/// block.
pub fn history_to_render_items(messages: &[AgentMessage]) -> (r: Vec<RenderItem>)
    ensures
        item_views(r@) == spec_history_items(messages@),
{
    let ghost ms = messages@;
    let ghost reads = skill_reads(ms);
    let mut skills = collect_skill_reads(messages);
    let mut names: Vec<(String, Option<String>)> = Vec::new();
    let mut out: Vec<RenderItem> = Vec::new();
    let mut i: usize = 0;
    while i < messages.len()
        invariant
            i <= ms.len(),
            ms == messages@,
            reads == skill_reads(ms),
            agrees(name_view(names@), history_fold(ms.subrange(0, i as int), reads).0.names),
            agrees(skill_view(skills@), history_fold(ms.subrange(0, i as int), reads).0.skills),
            item_views(out@) == history_fold(ms.subrange(0, i as int), reads).1,
        decreases messages.len() - i,
    {
        let ghost st = history_fold(ms.subrange(0, i as int), reads).0;
        let ghost before = item_views(out@);
        assert(ms.subrange(0, i + 1).drop_last() == ms.subrange(0, i as int));
        assert(ms.subrange(0, i + 1).last() == ms[i as int]);
        let ghost next = entry_items(st, ms[i as int]);
        match &messages[i] {
            AgentMessage::CompactSummary { tokens_before, .. } => {
                let mut t = String::from_str("context compacted (");
                push_str(&mut t, fmt_usize(*tokens_before).as_str());
                push_str(&mut t, " tokens before)");
                push_item(&mut out, RenderItem::Notice(t));
            },
            AgentMessage::Llm(x) => {
                let text = x.text_content();
                match x.role {
                    Role::User => {
                        match parse_skill_block(text.as_str()) {
                            Some((name, content)) => push_item(&mut out, RenderItem::Skill { name, content }),
                            None => push_item(&mut out, RenderItem::UserPrompt(text)),
                        }
                    },
                    Role::Assistant => {
                        if !text.as_str().is_empty() {
                            push_item(&mut out, RenderItem::Text(text));
                        }
                        replay_calls(&x.tool_calls, &mut names, &skills, &mut out, Ghost(st));
                    },
                    Role::Tool => {
                        let id = match &x.tool_call_id {
                            Some(id) => id.clone(),
                            None => String::new(),
                        };
                        match lookup_skill(&skills, id.as_str()) {
                            Some((name, content)) => {
                                let ghost sb = skills@;
                                let entry: (String, Option<(String, String)>) = (copy_string(&id), None);
                                proof {
                                    lemma_agrees_push(skill_view(sb), st.skills, id@, None);
                                }
                                skills.push(entry);
                                assert(skill_view(skills@) == skill_view(sb).push((id@, None)));
                                push_item(&mut out, RenderItem::Skill { name, content });
                            },
                            None => {
                                let name = match lookup_name(&names, id.as_str()) {
                                    Some(n) => n,
                                    None => String::from_str("tool"),
                                };
                                let ghost nb = names@;
                                let entry: (String, Option<String>) = (copy_string(&id), None);
                                proof {
                                    lemma_agrees_push(name_view(nb), st.names, id@, None);
                                }
                                names.push(entry);
                                assert(name_view(names@) == name_view(nb).push((id@, None)));
                                let failed = starts_with_chars(&chars_of(text.as_str()), &chars_of("Error: "));
                                push_item(
                                    &mut out,
                                    RenderItem::ToolResult { tool_call_id: id, name, ok: !failed, result: text },
                                );
                            },
                        }
                    },
                    Role::System => {},
                }
            },
        }
        assert(item_views(out@) == before + next.1);
        i = i + 1;
    }
    assert(ms.subrange(0, ms.len() as int) == ms);
    out
}

} // verus!
