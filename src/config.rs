//! The configuration document before typing, and the rewrite of its
//! subgraph URL override section.
use vstd::prelude::*;

use crate::placeholder::{dollar_free, expand_placeholders, rewritten, shell_expansion, EnvTable};

verus! {

/// Why the configuration could not be loaded.
#[derive(Debug, PartialEq, Eq, Structural)]
pub enum ConfigError {
    /// The configuration or schema file could not be read.
    ConfigReadError,
    /// The configuration text is not a well-formed document.
    ConfigParseError,
    /// The document does not have the shape of the typed configuration.
    ConfigTypeError,
    /// A placeholder names an unset variable and declares no fallback.
    EnvExpansionError,
}

/// A node of the configuration document before it is typed. Numbers are kept
/// in their written form.
#[derive(Debug, PartialEq, Eq)]
pub enum ConfigNode {
    Null,
    Bool(bool),
    Number(String),
    Text(String),
    List(Vec<ConfigNode>),
    Mapping(Vec<ConfigEntry>),
    Tagged(String, Box<ConfigNode>),
}

/// One key and its value in a mapping node.
#[derive(Debug, PartialEq, Eq)]
pub struct ConfigEntry {
    pub key: ConfigNode,
    pub value: ConfigNode,
}

/// The top-level key of the subgraph URL override section.
pub open spec fn override_key() -> Seq<char> {
    seq![
        'o', 'v', 'e', 'r', 'r', 'i', 'd', 'e', '_', 's', 'u', 'b', 'g', 'r', 'a', 'p', 'h', '_',
        'u', 'r', 'l',
    ]
}

/// The key names the override section.
pub open spec fn is_override_key(k: ConfigNode) -> bool {
    k matches ConfigNode::Text(s) && s@ == override_key()
}

/// The index of the first entry of `es` whose key names the override section.
pub open spec fn override_index(es: Seq<ConfigEntry>) -> Option<int> {
    if exists|i: int| 0 <= i < es.len() && is_override_key(#[trigger] es[i].key) {
        Some(
            choose|i: int|
                0 <= i < es.len() && is_override_key(#[trigger] es[i].key) && forall|j: int|
                    0 <= j < i ==> !is_override_key(#[trigger] es[j].key),
        )
    } else {
        None
    }
}

/// The entries of the override section of `doc`: present when `doc` is a mapping
/// whose first override key maps to a mapping.
pub open spec fn override_section(doc: ConfigNode) -> Option<Seq<ConfigEntry>> {
    match doc {
        ConfigNode::Mapping(es) => match override_index(es@) {
            Some(i) => match es@[i].value {
                ConfigNode::Mapping(sec) => Some(sec@),
                _ => None,
            },
            None => None,
        },
        _ => None,
    }
}

/// `new` is what the override step makes of the section value `old`: a text
/// holding a `$` is rewritten and expanded; a text without one holds no
/// placeholder and is kept, as is every other value.
pub open spec fn value_rewritten(
    old: ConfigNode,
    new: ConfigNode,
    env: Seq<(Seq<char>, Seq<char>)>,
) -> bool {
    match old {
        ConfigNode::Text(t) => if dollar_free(t@) {
            new == old
        } else {
            new matches ConfigNode::Text(u) && shell_expansion(rewritten(t@), env) == Some(u@)
        },
        _ => new == old,
    }
}

/// The section value `v` names an unset variable without a fallback.
pub open spec fn value_fails(v: ConfigNode, env: Seq<(Seq<char>, Seq<char>)>) -> bool {
    v matches ConfigNode::Text(t) && !dollar_free(t@) && shell_expansion(rewritten(t@), env) is None
}

/// Some value of the override section of `doc` fails its expansion.
pub open spec fn section_fails(doc: ConfigNode, env: Seq<(Seq<char>, Seq<char>)>) -> bool {
    match override_section(doc) {
        Some(sec) => exists|j: int| 0 <= j < sec.len() && value_fails(#[trigger] sec[j].value, env),
        None => false,
    }
}

/// Entry by entry, `new` is what the override step makes of the section `old`.
pub open spec fn section_rewritten(
    old: Seq<ConfigEntry>,
    new: Seq<ConfigEntry>,
    env: Seq<(Seq<char>, Seq<char>)>,
) -> bool {
    &&& new.len() == old.len()
    &&& forall|j: int|
        0 <= j < old.len() ==> (#[trigger] new[j]).key == old[j].key && value_rewritten(
            old[j].value,
            new[j].value,
            env,
        )
}

/// `new` is `doc` with its override section, if any, rewritten: every other
/// top-level entry, the section's key and the section's keys stay as they were.
pub open spec fn document_rewritten(
    doc: ConfigNode,
    new: ConfigNode,
    env: Seq<(Seq<char>, Seq<char>)>,
) -> bool {
    match override_section(doc) {
        Some(sec) => {
            let es = doc->Mapping_0@;
            let i = override_index(es)->0;
            &&& new matches ConfigNode::Mapping(es2)
            &&& es2@.len() == es.len()
            &&& forall|k: int| 0 <= k < es.len() && k != i ==> #[trigger] es2@[k] == es[k]
            &&& es2@[i].key == es[i].key
            &&& es2@[i].value matches ConfigNode::Mapping(sec2)
            &&& section_rewritten(sec, sec2@, env)
        },
        None => same_node(new, doc),
    }
}

/// No text value of the override section of `doc` holds a `$`.
pub open spec fn section_placeholder_free(doc: ConfigNode) -> bool {
    match override_section(doc) {
        Some(sec) => forall|j: int|
            0 <= j < sec.len() ==> !((#[trigger] sec[j].value) matches ConfigNode::Text(t)
                && !dollar_free(t@)),
        None => true,
    }
}

/// The same document: equal nodes, where mappings and lists are compared by
/// their entries, two levels deep.
pub open spec fn same_document(a: ConfigNode, b: ConfigNode) -> bool {
    match (a, b) {
        (ConfigNode::Mapping(x), ConfigNode::Mapping(y)) => {
            &&& x@.len() == y@.len()
            &&& forall|k: int|
                0 <= k < x@.len() ==> (#[trigger] x@[k]).key == y@[k].key && same_node(
                    x@[k].value,
                    y@[k].value,
                )
        },
        _ => a == b,
    }
}

/// Equal nodes, where mappings and lists are compared by their entries.
pub open spec fn same_node(a: ConfigNode, b: ConfigNode) -> bool {
    match (a, b) {
        (ConfigNode::Mapping(x), ConfigNode::Mapping(y)) => x@ == y@,
        (ConfigNode::List(x), ConfigNode::List(y)) => x@ == y@,
        _ => a == b,
    }
}

/// Does the key name the override section?
fn is_override_entry_key(k: &ConfigNode) -> (r: bool)
    ensures
        r == is_override_key(*k),
{
    match k {
        ConfigNode::Text(s) => {
            let key = "override_subgraph_url".to_owned();
            proof {
                reveal_strlit("override_subgraph_url");
                assert(key@ =~= override_key());
            }
            *s == key
        },
        _ => false,
    }
}

proof fn lemma_override_index(es: Seq<ConfigEntry>, w: int)
    requires
        0 <= w < es.len(),
        is_override_key(es[w].key),
        forall|j: int| 0 <= j < w ==> !is_override_key(#[trigger] es[j].key),
    ensures
        override_index(es) == Some(w),
{
    let c = choose|c: int|
        0 <= c < es.len() && is_override_key(#[trigger] es[c].key) && forall|j: int|
            0 <= j < c ==> !is_override_key(#[trigger] es[j].key);
    if c > w {
        assert(!is_override_key(es[w].key));
    }
}

/// The index of the first entry whose key names the override section.
fn find_override(es: &Vec<ConfigEntry>) -> (r: Option<usize>)
    ensures
        match r {
            Some(i) => i < es.len() && override_index(es@) == Some(i as int),
            None => override_index(es@) is None,
        },
{
    let mut i: usize = 0;
    while i < es.len()
        invariant
            i <= es.len(),
            forall|j: int| 0 <= j < i ==> !is_override_key(#[trigger] es@[j].key),
        decreases es.len() - i,
    {
        if is_override_entry_key(&es[i].key) {
            proof {
                lemma_override_index(es@, i as int);
            }
            return Some(i);
        }
        i = i + 1;
    }
    None
}

/// Rewrites and expands each text value of an override section, in order.
fn rewrite_section(sec: Vec<ConfigEntry>, env: &EnvTable) -> (r: Result<Vec<ConfigEntry>, ConfigError>)
    ensures
        match r {
            Ok(sec2) => section_rewritten(sec@, sec2@, env@) && !exists|j: int|
                0 <= j < sec@.len() && value_fails(#[trigger] sec@[j].value, env@),
            Err(e) => e == ConfigError::EnvExpansionError && exists|j: int|
                0 <= j < sec@.len() && value_fails(#[trigger] sec@[j].value, env@),
        },
{
    let ghost orig = sec@;
    let mut rest = sec;
    let mut out: Vec<ConfigEntry> = Vec::new();
    while rest.len() > 0
        invariant
            orig == sec@,
            out.len() + rest.len() == orig.len(),
            rest@ == orig.skip(out.len() as int),
            forall|j: int|
                0 <= j < out.len() ==> (#[trigger] out@[j]).key == orig[j].key && value_rewritten(
                    orig[j].value,
                    out@[j].value,
                    env@,
                ),
            forall|j: int| 0 <= j < out.len() ==> !value_fails(#[trigger] orig[j].value, env@),
        decreases rest.len(),
    {
        let ghost k = out.len() as int;
        let entry = rest.remove(0);
        assert(entry == orig[k]);
        assert(rest@ =~= orig.skip(k + 1));
        let ConfigEntry { key, value } = entry;
        let value2 = match value {
            ConfigNode::Text(t) => {
                if crate::placeholder::has_dollar(t.as_str()) {
                    match expand_placeholders(t.as_str(), env) {
                        Ok(x) => ConfigNode::Text(x),
                        Err(e) => {
                            assert(0 <= k < orig.len() && value_fails(orig[k].value, env@));
                            assert(exists|j: int|
                                0 <= j < sec@.len() && value_fails(#[trigger] sec@[j].value, env@));
                            return Err(e);
                        },
                    }
                } else {
                    ConfigNode::Text(t)
                }
            },
            other => other,
        };
        out.push(ConfigEntry { key, value: value2 });
    }
    proof {
        assert forall|j: int| 0 <= j < orig.len() implies !value_fails(#[trigger] orig[j].value, env@) by {
        }
    }
    Ok(out)
}

/// Puts the rewritten section back at index `i` of the top-level entries.
fn rewrite_entry_at(entries: Vec<ConfigEntry>, i: usize, env: &EnvTable) -> (r: Result<
    Vec<ConfigEntry>,
    ConfigError,
>)
    requires
        i < entries.len(),
    ensures
        match entries@[i as int].value {
            ConfigNode::Mapping(sec) => match r {
                Ok(es2) => {
                    &&& es2@.len() == entries@.len()
                    &&& forall|k: int|
                        0 <= k < entries@.len() && k != i ==> #[trigger] es2@[k] == entries@[k]
                    &&& es2@[i as int].key == entries@[i as int].key
                    &&& es2@[i as int].value matches ConfigNode::Mapping(sec2)
                    &&& section_rewritten(sec@, sec2@, env@)
                    &&& !exists|j: int|
                        0 <= j < sec@.len() && value_fails(#[trigger] sec@[j].value, env@)
                    &&& (forall|j: int|
                        0 <= j < sec@.len() ==> !((#[trigger] sec@[j].value) matches ConfigNode::Text(
                            t,
                        ) && !dollar_free(t@))) ==> sec2@ == sec@
                },
                Err(e) => e == ConfigError::EnvExpansionError && exists|j: int|
                    0 <= j < sec@.len() && value_fails(#[trigger] sec@[j].value, env@),
            },
            _ => r is Ok && r->Ok_0@ == entries@,
        },
{
    let ghost es = entries@;
    let mut entries = entries;
    let ConfigEntry { key, value } = entries.remove(i);
    match value {
        ConfigNode::Mapping(sec) => {
            let ghost sec0 = sec@;
            match rewrite_section(sec, env) {
                Ok(sec2) => {
                    entries.insert(i, ConfigEntry { key, value: ConfigNode::Mapping(sec2) });
                    assert forall|k: int| 0 <= k < es.len() && k != i implies #[trigger] entries@[k]
                        == es[k] by {}
                    proof {
                        if forall|j: int|
                            0 <= j < sec0.len() ==> !((#[trigger] sec0[j].value) matches ConfigNode::Text(
                                t,
                            ) && !dollar_free(t@)) {
                            assert forall|j: int| 0 <= j < sec0.len() implies #[trigger] sec2@[j]
                                == sec0[j] by {
                                assert(sec2@[j].key == sec0[j].key);
                            }
                            assert(sec2@ =~= sec0);
                        }
                    }
                    Ok(entries)
                },
                Err(e) => Err(e),
            }
        },
        other => {
            entries.insert(i, ConfigEntry { key, value: other });
            assert(entries@ =~= es);
            Ok(entries)
        },
    }
}

/// The override step: rewrites and expands the text values of the override
/// section of `doc`, and leaves every other part of the document as it is.
/// It fails exactly when a value there names an unset variable without a
/// fallback. A section without placeholders comes back as it was.
pub fn rewrite_overrides(doc: ConfigNode, env: &EnvTable) -> (r: Result<ConfigNode, ConfigError>)
    ensures
        match r {
            Ok(new) => document_rewritten(doc, new, env@) && !section_fails(doc, env@),
            Err(e) => e == ConfigError::EnvExpansionError && section_fails(doc, env@),
        },
        section_placeholder_free(doc) ==> r is Ok && same_document(r->Ok_0, doc),
{
    match doc {
        ConfigNode::Mapping(entries) => {
            let ghost es = entries@;
            match find_override(&entries) {
                None => Ok(ConfigNode::Mapping(entries)),
                Some(i) => {
                    let r = rewrite_entry_at(entries, i, env);
                    proof {
                        if r is Ok {
                            let es2 = r->Ok_0@;
                            if !(es[i as int].value is Mapping) {
                                assert(es2 =~= es);
                            }
                        }
                    }
                    match r {
                        Ok(es2) => Ok(ConfigNode::Mapping(es2)),
                        Err(e) => Err(e),
                    }
                },
            }
        },
        other => Ok(other),
    }
}
/// The override step passes through every top-level entry whose key does not
/// name the override section, unchanged and at its place: placeholders there are
/// not expanded.
pub proof fn lemma_outside_section_untouched(
    doc: ConfigNode,
    new: ConfigNode,
    env: Seq<(Seq<char>, Seq<char>)>,
    k: int,
)
    requires
        document_rewritten(doc, new, env),
        doc is Mapping,
        0 <= k < doc->Mapping_0@.len(),
        !is_override_key(doc->Mapping_0@[k].key),
    ensures
        new is Mapping,
        new->Mapping_0@.len() == doc->Mapping_0@.len(),
        new->Mapping_0@[k] == doc->Mapping_0@[k],
{
    let es = doc->Mapping_0@;
    match override_index(es) {
        Some(i) => {
            assert(exists|i: int| 0 <= i < es.len() && is_override_key(#[trigger] es[i].key));
            let c = choose|c: int|
                0 <= c < es.len() && is_override_key(#[trigger] es[c].key) && forall|j: int|
                    0 <= j < c ==> !is_override_key(#[trigger] es[j].key);
            assert(exists|c: int|
                0 <= c < es.len() && is_override_key(#[trigger] es[c].key) && forall|j: int|
                    0 <= j < c ==> !is_override_key(#[trigger] es[j].key)) by {
                let w = choose|i: int| 0 <= i < es.len() && is_override_key(#[trigger] es[i].key);
                lemma_first_override(es, w);
            }
            assert(i == c);
            assert(k != i);
        },
        None => {},
    }
}

proof fn lemma_first_override(es: Seq<ConfigEntry>, w: int)
    requires
        0 <= w < es.len(),
        is_override_key(es[w].key),
    ensures
        exists|c: int|
            0 <= c < es.len() && is_override_key(#[trigger] es[c].key) && forall|j: int|
                0 <= j < c ==> !is_override_key(#[trigger] es[j].key),
    decreases w,
{
    if exists|j: int| 0 <= j < w && is_override_key(#[trigger] es[j].key) {
        let j = choose|j: int| 0 <= j < w && is_override_key(#[trigger] es[j].key);
        lemma_first_override(es, j);
    } else {
        assert(0 <= w < es.len() && is_override_key(es[w].key) && forall|j: int|
            0 <= j < w ==> !is_override_key(#[trigger] es[j].key));
    }
}

} // verus!
