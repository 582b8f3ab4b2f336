//! Editing `config.toml` for `slimcode config`: the answers the user filled
//! in are merged into the `[ai]` table of the existing document; every other
//! table and key is kept. Parsing and printing the TOML is the `toml`
//! crate's; the document is carried between them as tables of entries, with
//! strings visible and any other value held as the crate parsed it.
use vstd::prelude::*;
use crate::app::config::{ConfigAnswers, config_edits, edits_view, spec_edits};
use crate::text::{chars_of, eq_str, prefix_of, push_str, trim, trim_chars};

verus! {

broadcast use vstd::seq_lib::group_seq_properties;

/// A TOML value of `toml`'s parser: `toml::Value`, declared so that it can
/// be carried through the merge unread.
#[verifier::external_type_specification]
#[verifier::external_body]
pub struct ExTomlValue(toml::Value);

/// A TOML document as the merge sees it.
#[derive(Debug)]
pub enum TomlItem {
    /// A table: its entries, in the order the parser gave them.
    Table(Vec<(String, TomlItem)>),
    /// A string value.
    Str(String),
    /// Any other value, as parsed.
    Other(toml::Value),
}

/// A table's entries as a map; of two entries with one key the later wins.
pub open spec fn table_map(es: Seq<(String, TomlItem)>) -> Map<Seq<char>, TomlItem>
    decreases es.len(),
{
    if es.len() == 0 {
        Map::empty()
    } else {
        table_map(es.drop_last()).insert(es.last().0@, es.last().1)
    }
}

/// The value under `k` in a table's entries.
pub open spec fn entry(es: Seq<(String, TomlItem)>, k: Seq<char>) -> Option<TomlItem> {
    if table_map(es).contains_key(k) {
        Some(table_map(es)[k])
    } else {
        None
    }
}

/// The answer the edits give key `k` (the last edit of `k` wins).
pub open spec fn edit_for(edits: Seq<(Seq<char>, Seq<char>)>, k: Seq<char>) -> Option<Seq<char>>
    decreases edits.len(),
{
    if edits.len() == 0 {
        None
    } else if edits.last().0 == k {
        Some(edits.last().1)
    } else {
        edit_for(edits.drop_last(), k)
    }
}

/// `i` is the string `s`.
pub open spec fn str_item(i: TomlItem, s: Seq<char>) -> bool {
    i matches TomlItem::Str(x) && x@ == s
}

/// The table `m2` is `m` with the edits applied: each edited key holds its
/// answer as a string, every other key keeps its value, no key is lost or
/// added besides the edited ones.
pub open spec fn applied(
    m2: Map<Seq<char>, TomlItem>,
    m: Map<Seq<char>, TomlItem>,
    edits: Seq<(Seq<char>, Seq<char>)>,
) -> bool {
    &&& forall|k: Seq<char>| #[trigger] m2.contains_key(k) <==> (m.contains_key(k) || edit_for(edits, k) is Some)
    &&& forall|k: Seq<char>| #[trigger] edit_for(edits, k) matches Some(v) ==> m2.contains_key(k) && str_item(m2[k], v)
    &&& forall|k: Seq<char>| edit_for(edits, k) is None && m.contains_key(k) ==> #[trigger] m2[k] == m[k]
}

/// The prefix of every error about the file.
pub open spec fn file_error(msg: Seq<char>) -> Seq<char> {
    "config.toml: "@ + msg
}

/// How a merge of the answers into a document turns out: with no edit, the
/// document as it was (`None`); otherwise the top level must be a table and
/// its `[ai]` entry (absent: a new empty table) must be a table, whose
/// entries (the map given back) the edits then go on top of.
pub open spec fn merge_outcome(doc: TomlItem, answers: ConfigAnswers) -> Result<Option<Map<Seq<char>, TomlItem>>, Seq<char>> {
    let edits = spec_edits(answers);
    if edits.len() == 0 {
        Ok(None)
    } else {
        match doc {
            TomlItem::Table(es) => match entry(es@, "ai"@) {
                None => Ok(Some(Map::empty())),
                Some(TomlItem::Table(ai)) => Ok(Some(table_map(ai@))),
                Some(_) => Err(file_error("`[ai]` must be a table"@)),
            },
            _ => Err(file_error("top level must be a table"@)),
        }
    }
}

proof fn lemma_file_error_prefix(m: Seq<char>)
    ensures
        prefix_of("config.toml: "@, file_error(m)),
{
    assert(file_error(m).subrange(0, "config.toml: "@.len() as int) =~= "config.toml: "@);
}

/// `config.toml: ` and the message.
fn file_error_text(msg: &str) -> (s: String)
    ensures
        s@ == file_error(msg@),
        prefix_of("config.toml: "@, s@),
{
    proof {
        lemma_file_error_prefix(msg@);
    }
    let mut s = String::from_str("config.toml: ");
    push_str(&mut s, msg);
    s
}

proof fn lemma_update_last(es: Seq<(String, TomlItem)>, j: int, p: (String, TomlItem))
    requires
        0 <= j < es.len(),
        es[j].0@ == p.0@,
        forall|i: int| j < i < es.len() ==> es[i].0@ != p.0@,
    ensures
        table_map(es.update(j, p)) == table_map(es).insert(p.0@, p.1),
    decreases es.len(),
{
    if j == es.len() - 1 {
        assert(es.update(j, p).drop_last() == es.drop_last());
        assert(table_map(es.update(j, p)) =~= table_map(es).insert(p.0@, p.1));
    } else {
        assert(es.update(j, p).drop_last() == es.drop_last().update(j, p));
        lemma_update_last(es.drop_last(), j, p);
        assert(table_map(es.update(j, p)) =~= table_map(es).insert(p.0@, p.1));
    }
}

/// Set `k` to `v` in a table's entries: the last entry with that key is
/// replaced, or the entry is added.
fn set_entry(es: &mut Vec<(String, TomlItem)>, k: &str, v: TomlItem)
    ensures
        table_map(final(es)@) == table_map(old(es)@).insert(k@, v),
{
    let mut j = es.len();
    while j > 0
        invariant
            j <= es@.len(),
            es@ == old(es)@,
            forall|i: int| j <= i < es@.len() ==> es@[i].0@ != k@,
        decreases j,
    {
        if eq_str(es[j - 1].0.as_str(), k) {
            let ghost before = es@;
            let p = (k.to_owned(), v);
            proof {
                lemma_update_last(before, j - 1, p);
            }
            es.set(j - 1, p);
            return;
        }
        j = j - 1;
    }
    let ghost before = es@;
    es.push((k.to_owned(), v));
    assert(es@.drop_last() == before);
}

/// Take the entry under `k` out of a table's entries, if there is one.
fn take_entry(es: &mut Vec<(String, TomlItem)>, k: &str) -> (r: Option<TomlItem>)
    ensures
        r == entry(old(es)@, k@),
        table_map(final(es)@).remove(k@) == table_map(old(es)@).remove(k@),
{
    let mut j = es.len();
    while j > 0
        invariant
            j <= es@.len(),
            es@ == old(es)@,
            forall|i: int| j <= i < es@.len() ==> es@[i].0@ != k@,
        decreases j,
    {
        if eq_str(es[j - 1].0.as_str(), k) {
            let ghost before = es@;
            let placeholder = (k.to_owned(), TomlItem::Table(Vec::new()));
            proof {
                lemma_update_last(before, j - 1, placeholder);
                lemma_last_wins(before, j - 1);
            }
            let old_entry = es.remove(j - 1);
            es.insert(j - 1, placeholder);
            assert(es@ =~= before.update(j - 1, placeholder));
            assert(table_map(es@).remove(k@) =~= table_map(before).remove(k@));
            return Some(old_entry.1);
        }
        j = j - 1;
    }
    proof {
        lemma_absent(es@, k@);
    }
    None
}

proof fn lemma_last_wins(es: Seq<(String, TomlItem)>, j: int)
    requires
        0 <= j < es.len(),
        forall|i: int| j < i < es.len() ==> es[i].0@ != es[j].0@,
    ensures
        table_map(es).contains_key(es[j].0@),
        table_map(es)[es[j].0@] == es[j].1,
    decreases es.len(),
{
    if j < es.len() - 1 {
        lemma_last_wins(es.drop_last(), j);
    }
}

proof fn lemma_absent(es: Seq<(String, TomlItem)>, k: Seq<char>)
    requires
        forall|i: int| 0 <= i < es.len() ==> es[i].0@ != k,
    ensures
        !table_map(es).contains_key(k),
    decreases es.len(),
{
    if es.len() > 0 {
        lemma_absent(es.drop_last(), k);
    }
}

/// `d` is what merging the answers into `doc` gives when the merge does
/// not fail (see [`merge_outcome`]): with no edit, `doc` itself; otherwise
/// the top-level table with only its `[ai]` entry changed, to a table
/// holding the edits on top of the old `[ai]` entries.
pub open spec fn merged_as(doc: TomlItem, answers: ConfigAnswers, d: TomlItem) -> bool {
    match merge_outcome(doc, answers) {
        Err(_) => false,
        Ok(None) => d == doc,
        Ok(Some(ai)) => d matches TomlItem::Table(es2) && ({
            let old_map = match doc {
                TomlItem::Table(es) => table_map(es@),
                _ => Map::empty(),
            };
            &&& table_map(es2@).remove("ai"@) == old_map.remove("ai"@)
            &&& table_map(es2@).contains_key("ai"@)
            &&& table_map(es2@)["ai"@] matches TomlItem::Table(ai2) && applied(
                table_map(ai2@),
                ai,
                spec_edits(answers),
            )
        }),
    }
}

/// Merge the answers into a parsed document (see [`merge_outcome`]): with
/// no edit the document comes back as it was; otherwise the result is the
/// top-level table with only its `[ai]` entry changed, to a table holding
/// the edits on top of the old `[ai]` entries.
pub fn merge_document(doc: TomlItem, answers: &ConfigAnswers) -> (r: Result<TomlItem, String>)
    ensures
        match merge_outcome(doc, *answers) {
            Err(e) => r matches Err(x) && x@ == e,
            Ok(_) => r matches Ok(d) && merged_as(doc, *answers, d),
        },
{
    let edits = config_edits(answers);
    if edits.len() == 0 {
        return Ok(doc);
    }
    let mut es = match doc {
        TomlItem::Table(es) => es,
        _ => {
            return Err(file_error_text("top level must be a table"));
        },
    };
    let ghost old_es = es@;
    let mut ai = match take_entry(&mut es, "ai") {
        None => Vec::new(),
        Some(TomlItem::Table(ai)) => ai,
        Some(_) => {
            return Err(file_error_text("`[ai]` must be a table"));
        },
    };
    let ghost start = table_map(ai@);
    let ghost ev = edits_view(edits@);
    assert(ev == spec_edits(*answers));
    assert(ev.subrange(0, 0) == Seq::<(Seq<char>, Seq<char>)>::empty());
    let mut i: usize = 0;
    while i < edits.len()
        invariant
            i <= edits@.len(),
            ev == edits_view(edits@),
            applied(table_map(ai@), start, ev.subrange(0, i as int)),
        decreases edits.len() - i,
    {
        let ghost pre = table_map(ai@);
        let value = edits[i].1.clone();
        let ghost k = edits@[i as int].0@;
        let ghost sub = ev.subrange(0, i + 1);
        assert(sub.drop_last() == ev.subrange(0, i as int));
        assert(sub.last() == (k, value@));
        set_entry(&mut ai, edits[i].0, TomlItem::Str(value));
        assert forall|x: Seq<char>| #[trigger] edit_for(sub, x) == (if x == k {
            Some(value@)
        } else {
            edit_for(ev.subrange(0, i as int), x)
        }) by {}
        i = i + 1;
    }
    assert(ev.subrange(0, edits@.len() as int) == ev);
    let ghost mid = es@;
    set_entry(&mut es, "ai", TomlItem::Table(ai));
    assert(table_map(es@).remove("ai"@) =~= table_map(mid).remove("ai"@));
    Ok(TomlItem::Table(es))
}

/// The message `toml::from_str::<toml::Value>` fails with on `s` (its
/// error's `Display`), or none when `s` parses.
pub uninterp spec fn toml_parse_error(s: Seq<char>) -> Option<Seq<char>>;

/// The document `toml::from_str::<toml::Value>` parses `s` to, as a
/// [`TomlItem`] (meaningful when `s` parses).
pub uninterp spec fn toml_document(s: Seq<char>) -> TomlItem;

/// `toml::from_str::<toml::Value>(s)`, the document carried as a
/// [`TomlItem`]. The contract says when it fails and names the error text
/// and the parsed document; what a parsed document holds is not stated.
#[verifier::external_body]
fn toml_parse(s: &str) -> (r: Result<TomlItem, String>)
    ensures
        match r {
            Ok(d) => toml_parse_error(s@) is None && d == toml_document(s@),
            Err(e) => toml_parse_error(s@) == Some(e@),
        },
{
    toml::from_str::<toml::Value>(s).map(item_of).map_err(|e| e.to_string())
}

/// A parsed `toml::Value` as a [`TomlItem`]: tables and strings opened,
/// every other value kept as it is.
#[verifier::external_body]
fn item_of(v: toml::Value) -> TomlItem {
    match v {
        toml::Value::String(s) => TomlItem::Str(s),
        toml::Value::Table(t) => TomlItem::Table(t.into_iter().map(|(k, x)| (k, item_of(x))).collect()),
        other => TomlItem::Other(other),
    }
}

/// A [`TomlItem`] back as a `toml::Value`.
#[verifier::external_body]
fn value_of(i: TomlItem) -> toml::Value {
    match i {
        TomlItem::Str(s) => toml::Value::String(s),
        TomlItem::Table(es) => toml::Value::Table(es.into_iter().map(|(k, x)| (k, value_of(x))).collect()),
        TomlItem::Other(v) => v,
    }
}

/// What `toml::to_string` gives for a document: its text, or the message
/// of the error it fails with.
pub uninterp spec fn toml_text(d: TomlItem) -> Result<Seq<char>, Seq<char>>;

/// `toml::to_string` of the document. The contract names the text or the
/// error message and says no more of it.
#[verifier::external_body]
fn toml_render(doc: TomlItem) -> (r: Result<String, String>)
    ensures
        match r {
            Ok(t) => toml_text(doc) == Ok::<Seq<char>, Seq<char>>(t@),
            Err(e) => toml_text(doc) == Err::<Seq<char>, Seq<char>>(e@),
        },
{
    toml::to_string(&value_of(doc)).map_err(|e| e.to_string())
}

/// The empty document.
fn empty_document() -> (d: TomlItem)
    ensures
        d matches TomlItem::Table(es) && es@.len() == 0,
{
    TomlItem::Table(Vec::new())
}

/// The document a merge starts from: the parsed text, or an empty table
/// when the text is absent or blank.
pub open spec fn start_document(existing: Option<Seq<char>>, d: TomlItem) -> bool {
    match existing {
        Some(s) if trim(s).len() > 0 => d == toml_document(s),
        _ => d matches TomlItem::Table(es) && es@.len() == 0,
    }
}

/// `r` is the printed document `d`, or the print failure as a file error.
pub open spec fn printed(d: TomlItem, r: Result<String, String>) -> bool {
    match toml_text(d) {
        Ok(t) => r matches Ok(x) && x@ == t,
        Err(e) => r matches Err(x) && x@ == file_error(e),
    }
}

/// How a merge from `d0` ends: the merge's own error, or the merged
/// document `d` printed.
pub open spec fn merge_ends(d0: TomlItem, answers: ConfigAnswers, d: TomlItem, r: Result<String, String>) -> bool {
    match merge_outcome(d0, answers) {
        Err(e) => r matches Err(x) && x@ == e,
        Ok(_) => merged_as(d0, answers, d) && printed(d, r),
    }
}

pub open spec fn opt_str_view(o: Option<&str>) -> Option<Seq<char>> {
    match o {
        Some(s) => Some(s@),
        None => None,
    }
}

/// Merge existing `config.toml` text with the answers of `slimcode config`:
/// absent or blank text is the empty document; text that does not parse is
/// an error naming the parse failure; the parsed document goes through
/// [`merge_document`] and is printed back. Every error starts with
/// `config.toml: `.
pub fn merge_config_toml(existing: Option<&str>, answers: &ConfigAnswers) -> (r: Result<String, String>)
    ensures
        (existing matches Some(s) && trim(s@).len() > 0 && toml_parse_error(s@) is Some) ==> (r matches Err(e)
            && e@ == file_error(toml_parse_error(existing->0@)->0)),
        !(existing matches Some(s) && trim(s@).len() > 0 && toml_parse_error(s@) is Some) ==> exists|
            d0: TomlItem,
            d: TomlItem,
        | start_document(opt_str_view(existing), d0) && merge_ends(d0, *answers, d, r),
        r matches Err(e) ==> prefix_of("config.toml: "@, e@),
{
    let doc = match existing {
        Some(s) => {
            let t = trim_chars(&chars_of(s));
            if t.len() == 0 {
                empty_document()
            } else {
                match toml_parse(s) {
                    Ok(d) => d,
                    Err(e) => return Err(file_error_text(e.as_str())),
                }
            }
        },
        None => empty_document(),
    };
    proof {
        lemma_file_error_prefix("`[ai]` must be a table"@);
        lemma_file_error_prefix("top level must be a table"@);
    }
    let ghost d0 = doc;
    assert(start_document(opt_str_view(existing), d0));
    let merged = match merge_document(doc, answers) {
        Ok(d) => d,
        Err(e) => {
            assert(merge_ends(d0, *answers, d0, Err::<String, String>(e)));
            return Err(e);
        },
    };
    let ghost d = merged;
    let r = match toml_render(merged) {
        Ok(text) => Ok(text),
        Err(e) => Err(file_error_text(e.as_str())),
    };
    assert(merge_ends(d0, *answers, d, r));
    r
}

} // verus!
