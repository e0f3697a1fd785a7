//! The TOML configuration files: reading the profiles and setting dotted keys.
//!
//! A table is seen through two maps keyed by paths of keys, reached through
//! standard tables (`[a.b]` headers, dotted keys): `toml_strings` holds every
//! string value, `toml_nodes` every other item, `true` for a table.
use vstd::prelude::*;

use crate::config::{opt_view, profile_named, LocalProjectConfig, Profile, ProfileConfig, ProjectContext};
use crate::diff::string_views;
use crate::remote::first_from;
use crate::text::{chars_of, string_of};

verus! {

#[verifier::external_type_specification]
#[verifier::external_body]
pub struct ExTable(toml_edit::Table);

#[verifier::external_type_specification]
#[verifier::external_body]
pub struct ExDocumentMut(toml_edit::DocumentMut);

#[verifier::external_type_specification]
#[verifier::external_body]
pub struct ExTomlError(toml_edit::TomlError);

/// The string values of a table and of the tables nested in it, by key path.
pub uninterp spec fn toml_strings(t: toml_edit::Table) -> Map<Seq<Seq<char>>, Seq<char>>;

/// The items of a table and of the tables nested in it that are not strings,
/// by key path: `true` for a standard table, `false` for anything else.
pub uninterp spec fn toml_nodes(t: toml_edit::Table) -> Map<Seq<Seq<char>>, bool>;

/// Whether `text` is a TOML document.
pub uninterp spec fn toml_parses(text: Seq<char>) -> bool;

/// Why a configuration could not be read or changed.
#[derive(Debug, Clone, PartialEq, Eq)]
pub enum ConfigError {
    /// The file is not valid TOML.
    Parse,
    /// A key on the way to the one being set holds a value, not a table.
    KeyConflict(String),
}

/// What an entry of a table is, with a copy of it when it is a string or a table.
enum Lookup {
    Missing,
    Str(String),
    Table(toml_edit::Table),
    Other,
}

/// An item to put into a table.
enum NewItem {
    Str(String),
    Table(toml_edit::Table),
}

/// Whether `q` lies in the entry `k`: the entry itself or anything nested in it.
pub open spec fn under(k: Seq<char>, q: Seq<Seq<char>>) -> bool {
    q.len() > 0 && q[0] == k
}

/// `m` without the entry `k` and what is nested in it.
pub open spec fn without<V>(m: Map<Seq<Seq<char>>, V>, k: Seq<char>) -> Map<Seq<Seq<char>>, V> {
    Map::new(|q: Seq<Seq<char>>| m.contains_key(q) && !under(k, q), |q: Seq<Seq<char>>| m[q])
}

/// What is nested in the entry `k` of `m`, by paths relative to it.
pub open spec fn inside<V>(m: Map<Seq<Seq<char>>, V>, k: Seq<char>) -> Map<Seq<Seq<char>>, V> {
    Map::new(
        |q: Seq<Seq<char>>| q.len() > 0 && m.contains_key(seq![k] + q),
        |q: Seq<Seq<char>>| m[seq![k] + q],
    )
}

/// `m` placed under the entry `k`.
pub open spec fn nested<V>(k: Seq<char>, m: Map<Seq<Seq<char>>, V>) -> Map<Seq<Seq<char>>, V> {
    Map::new(
        |q: Seq<Seq<char>>| q.len() > 1 && q[0] == k && m.contains_key(q.skip(1)),
        |q: Seq<Seq<char>>| m[q.skip(1)],
    )
}

/// The entries of `a` and of `b`, those of `b` winning.
pub open spec fn merge<V>(a: Map<Seq<Seq<char>>, V>, b: Map<Seq<Seq<char>>, V>) -> Map<
    Seq<Seq<char>>,
    V,
> {
    Map::new(
        |q: Seq<Seq<char>>| a.contains_key(q) || b.contains_key(q),
        |q: Seq<Seq<char>>| if b.contains_key(q) {
            b[q]
        } else {
            a[q]
        },
    )
}

/// Relies on `toml_edit::Table::get`: what the entry `key` holds. A standard
/// table is copied with what is nested in it.
#[verifier::external_body]
fn lookup(t: &toml_edit::Table, key: &str) -> (r: Lookup)
    ensures
        match r {
            Lookup::Missing => !toml_strings(*t).contains_key(seq![key@]) && !toml_nodes(
                *t,
            ).contains_key(seq![key@]) && inside(toml_strings(*t), key@) == no_strings()
                && inside(toml_nodes(*t), key@) == no_nodes(),
            Lookup::Str(s) => toml_strings(*t).contains_key(seq![key@]) && toml_strings(*t)[seq![
                key@,
            ]] == s@ && !toml_nodes(*t).contains_key(seq![key@]) && inside(toml_strings(*t), key@)
                == no_strings() && inside(toml_nodes(*t), key@) == no_nodes(),
            Lookup::Table(c) => !toml_strings(*t).contains_key(seq![key@]) && toml_nodes(
                *t,
            ).contains_key(seq![key@]) && toml_nodes(*t)[seq![
                key@,
            ]] && toml_strings(c) == inside(toml_strings(*t), key@) && toml_nodes(c) == inside(
                toml_nodes(*t),
                key@,
            ),
            Lookup::Other => !toml_strings(*t).contains_key(seq![key@]) && toml_nodes(
                *t,
            ).contains_key(seq![key@]) && !toml_nodes(*t)[seq![
                key@,
            ]] && inside(toml_strings(*t), key@) == no_strings() && inside(toml_nodes(*t), key@)
                == no_nodes(),
        },
{
    match t.get(key) {
        None => Lookup::Missing,
        Some(toml_edit::Item::Table(c)) => Lookup::Table(c.clone()),
        Some(item) => match item.as_str() {
            Some(s) => Lookup::Str(s.to_string()),
            None => Lookup::Other,
        },
    }
}

/// Relies on `toml_edit::Table::insert`: the entry `key` becomes `item`,
/// replacing whatever it held.
#[verifier::external_body]
fn insert_item(t: &mut toml_edit::Table, key: &str, item: NewItem)
    ensures
        match item {
            NewItem::Str(v) => toml_strings(*final(t)) == without(
                toml_strings(*old(t)),
                key@,
            ).insert(seq![key@], v@) && toml_nodes(*final(t)) == without(
                toml_nodes(*old(t)),
                key@,
            ),
            NewItem::Table(c) => toml_strings(*final(t)) == merge(
                without(toml_strings(*old(t)), key@),
                nested(key@, toml_strings(c)),
            ) && toml_nodes(*final(t)) == merge(
                without(toml_nodes(*old(t)), key@).insert(seq![key@], true),
                nested(key@, toml_nodes(c)),
            ),
        },
{
    let item = match item {
        NewItem::Str(v) => toml_edit::Item::Value(toml_edit::Value::from(v)),
        NewItem::Table(c) => toml_edit::Item::Table(c),
    };
    t.insert(key, item);
}

/// Relies on `toml_edit::Table::iter`: the keys of the entries, each once.
#[verifier::external_body]
fn table_keys(t: &toml_edit::Table) -> (r: Vec<String>)
    ensures
        forall|i: int|
            0 <= i < r@.len() ==> toml_strings(*t).contains_key(seq![r@[i]@]) || toml_nodes(
                *t,
            ).contains_key(seq![r@[i]@]),
        forall|k: Seq<char>|
            (exists|i: int| 0 <= i < r@.len() && r@[i]@ == k) <== toml_nodes(*t).contains_key(
                seq![k],
            ),
        forall|i: int, j: int| 0 <= i < j < r@.len() ==> r@[i]@ != r@[j]@,
{
    t.iter().map(|(k, _)| k.to_string()).collect()
}

pub open spec fn no_strings() -> Map<Seq<Seq<char>>, Seq<char>> {
    Map::empty()
}

pub open spec fn no_nodes() -> Map<Seq<Seq<char>>, bool> {
    Map::empty()
}

/// Relies on `toml_edit::Table::new`: a table with no entries.
#[verifier::external_body]
fn new_table() -> (r: toml_edit::Table)
    ensures
        toml_strings(r) == no_strings(),
        toml_nodes(r) == no_nodes(),
{
    toml_edit::Table::new()
}

/// The string values of a document, by key path, as for `toml_strings`.
pub uninterp spec fn doc_strings(d: toml_edit::DocumentMut) -> Map<Seq<Seq<char>>, Seq<char>>;

/// The other items of a document, by key path, as for `toml_nodes`.
pub uninterp spec fn doc_nodes(d: toml_edit::DocumentMut) -> Map<Seq<Seq<char>>, bool>;

/// The string values of the document that `text` is, by key path.
pub uninterp spec fn text_strings(text: Seq<char>) -> Map<Seq<Seq<char>>, Seq<char>>;

/// The other items of the document that `text` is, by key path.
pub uninterp spec fn text_nodes(text: Seq<char>) -> Map<Seq<Seq<char>>, bool>;

/// Relies on `DocumentMut`'s `FromStr`: reads a TOML document, whose
/// contents depend on the text alone.
#[verifier::external_body]
fn parse_document(text: &str) -> (r: Result<toml_edit::DocumentMut, toml_edit::TomlError>)
    ensures
        r is Ok <==> toml_parses(text@),
        match r {
            Ok(d) => doc_strings(d) == text_strings(text@) && doc_nodes(d) == text_nodes(text@),
            Err(_) => true,
        },
{
    text.parse::<toml_edit::DocumentMut>()
}

/// Relies on `toml_edit::DocumentMut::new`: a document with no entries.
#[verifier::external_body]
fn new_document() -> (r: toml_edit::DocumentMut)
    ensures
        doc_strings(r) == no_strings(),
        doc_nodes(r) == no_nodes(),
{
    toml_edit::DocumentMut::new()
}

/// Relies on `toml_edit::DocumentMut::as_table_mut`: exchanges the root table
/// of the document, which holds all of its entries, with `t`.
#[verifier::external_body]
fn swap_root(doc: &mut toml_edit::DocumentMut, t: &mut toml_edit::Table)
    ensures
        doc_strings(*final(doc)) == toml_strings(*old(t)),
        doc_nodes(*final(doc)) == toml_nodes(*old(t)),
        toml_strings(*final(t)) == doc_strings(*old(doc)),
        toml_nodes(*final(t)) == doc_nodes(*old(doc)),
{
    std::mem::swap(doc.as_table_mut(), t)
}

/// Relies on `toml_edit::DocumentMut::as_table`: a copy of the root table,
/// which holds all of the document's entries.
#[verifier::external_body]
fn root_table(doc: &toml_edit::DocumentMut) -> (r: toml_edit::Table)
    ensures
        toml_strings(r) == doc_strings(*doc),
        toml_nodes(r) == doc_nodes(*doc),
{
    doc.as_table().clone()
}

/// The parts of `s` between the occurrences of `c`.
pub open spec fn split_on(s: Seq<char>, c: char) -> Seq<Seq<char>>
    decreases s.len(),
{
    if !s.contains(c) {
        seq![s]
    } else {
        let j = crate::remote::first_index(s, c);
        proof {
            crate::diff::lemma_first_index_bounds(s, c);
        }
        seq![s.take(j)] + split_on(s.skip(j + 1), c)
    }
}

/// The parts of a dotted key.
pub fn split_dots(key: &str) -> (r: Vec<String>)
    ensures
        string_views(r@) == split_on(key@, '.'),
        r@.len() >= 1,
{
    let v = chars_of(key);
    let mut r: Vec<String> = Vec::new();
    let mut p: usize = 0;
    assert(v@.skip(0) =~= v@);
    assert(string_views(r@) + split_on(v@, '.') =~= split_on(v@, '.'));
    loop
        invariant
            p <= v.len(),
            v@ == key@,
            string_views(r@) + split_on(v@.skip(p as int), '.') == split_on(v@, '.'),
        decreases v.len() - p,
    {
        let j = first_from(&v, p, '.');
        let ghost s = v@.skip(p as int);
        let part = string_of(&v, p, j);
        let ghost before = r@;
        r.push(part);
        assert(string_views(r@) =~= string_views(before).push(r@.last()@));
        if j == v.len() {
            proof {
                assert(part_view(r@) =~= s);
                assert(string_views(r@) =~= string_views(before) + seq![s]);
            }
            return r;
        }
        proof {
            crate::diff::lemma_first_index_bounds(s, '.');
            assert(s.take(j - p) =~= v@.subrange(p as int, j as int));
            assert(s.skip(j - p + 1) =~= v@.skip(j + 1));
            assert(string_views(r@) + split_on(v@.skip(j + 1), '.') =~= string_views(before) + (
            seq![s.take(j - p)] + split_on(s.skip(j - p + 1), '.')));
        }
        p = j + 1;
    }
}

spec fn part_view(r: Seq<String>) -> Seq<char> {
    r.last()@
}

/// The string and other items of a table after setting the string `v` at
/// `path`, creating the tables on the way; nothing when a key on the way
/// holds something other than a table.
pub open spec fn set_result(
    s: Map<Seq<Seq<char>>, Seq<char>>,
    n: Map<Seq<Seq<char>>, bool>,
    path: Seq<Seq<char>>,
    v: Seq<char>,
) -> Option<(Map<Seq<Seq<char>>, Seq<char>>, Map<Seq<Seq<char>>, bool>)>
    decreases path.len(),
{
    if path.len() == 0 {
        None
    } else if path.len() == 1 {
        Some((without(s, path[0]).insert(seq![path[0]], v), without(n, path[0])))
    } else {
        let k = path[0];
        let child = if n.contains_key(seq![k]) && n[seq![k]] {
            Some((inside(s, k), inside(n, k)))
        } else if !s.contains_key(seq![k]) && !n.contains_key(seq![k]) {
            Some((no_strings(), no_nodes()))
        } else {
            None
        };
        match child {
            None => None,
            Some(c) => match set_result(c.0, c.1, path.skip(1), v) {
                None => None,
                Some(r) => Some(
                    (
                        merge(without(s, k), nested(k, r.0)),
                        merge(without(n, k).insert(seq![k], true), nested(k, r.1)),
                    ),
                ),
            },
        }
    }
}

/// The strings of a table after setting `v` at `path`, as `set_result` gives them.
pub open spec fn set_strings(
    s: Map<Seq<Seq<char>>, Seq<char>>,
    n: Map<Seq<Seq<char>>, bool>,
    path: Seq<Seq<char>>,
    v: Seq<char>,
) -> Map<Seq<Seq<char>>, Seq<char>> {
    match set_result(s, n, path, v) {
        Some((a, _)) => a,
        None => s,
    }
}

/// The other items of a table after setting `v` at `path`, as `set_result` gives them.
pub open spec fn set_nodes(
    s: Map<Seq<Seq<char>>, Seq<char>>,
    n: Map<Seq<Seq<char>>, bool>,
    path: Seq<Seq<char>>,
    v: Seq<char>,
) -> Map<Seq<Seq<char>>, bool> {
    match set_result(s, n, path, v) {
        Some((_, b)) => b,
        None => n,
    }
}

/// Sets the string `value` at the key path `parts[i..]` of `t`.
pub fn set_in_table(t: &mut toml_edit::Table, parts: &Vec<String>, i: usize, value: &str) -> (r:
    Result<(), ConfigError>)
    requires
        i < parts.len(),
    ensures
        match set_result(
            toml_strings(*old(t)),
            toml_nodes(*old(t)),
            string_views(parts@).skip(i as int),
            value@,
        ) {
            Some(m) => r is Ok && toml_strings(*final(t)) == m.0 && toml_nodes(*final(t)) == m.1,
            None => r is Err,
        },
        r != Err::<(), _>(ConfigError::Parse),
    decreases parts.len() - i,
{
    let ghost path = string_views(parts@).skip(i as int);
    assert(path[0] == parts@[i as int]@);
    if i + 1 == parts.len() {
        insert_item(t, parts[i].as_str(), NewItem::Str(value.to_string()));
        return Ok(());
    }
    assert(path.skip(1) =~= string_views(parts@).skip(i + 1));
    let mut child = match lookup(t, parts[i].as_str()) {
        Lookup::Table(c) => c,
        Lookup::Missing => new_table(),
        _ => return Err(ConfigError::KeyConflict(parts[i].clone())),
    };
    match set_in_table(&mut child, parts, i + 1, value) {
        Ok(()) => {},
        Err(e) => return Err(e),
    }
    insert_item(t, parts[i].as_str(), NewItem::Table(child));
    Ok(())
}

/// The string at `path`, if any.
pub open spec fn str_at(s: Map<Seq<Seq<char>>, Seq<char>>, path: Seq<Seq<char>>) -> Option<
    Seq<char>,
> {
    if s.contains_key(path) {
        Some(s[path])
    } else {
        None
    }
}

/// Whether `n` holds a table at `path`.
pub open spec fn table_at(n: Map<Seq<Seq<char>>, bool>, path: Seq<Seq<char>>) -> bool {
    n.contains_key(path) && n[path]
}

/// The string of the entry `key` of `t`.
fn read_str(t: &toml_edit::Table, key: &str) -> (r: Option<String>)
    ensures
        opt_view(r) == str_at(toml_strings(*t), seq![key@]),
{
    match lookup(t, key) {
        Lookup::Str(s) => Some(s),
        _ => None,
    }
}

/// Whether `p` holds what the profile table at `base` of `s` says.
pub open spec fn profile_read(p: Profile, s: Map<Seq<Seq<char>>, Seq<char>>, base: Seq<Seq<char>>) -> bool {
    &&& opt_view(p.workspace) == str_at(s, base.push("workspace"@))
    &&& opt_view(p.user) == str_at(s, base.push("user"@))
    &&& opt_view(p.repository) == str_at(s, base.push("repository"@))
    &&& opt_view(p.api_url) == str_at(s, base.push("api_url"@))
    &&& opt_view(p.remote) == str_at(s, base.push("remote"@))
    &&& opt_view(p.output_format) == str_at(s, base.push("output_format"@))
}

/// The profile that the table `t` describes.
fn read_profile(t: &toml_edit::Table) -> (r: Profile)
    ensures
        profile_read(r, toml_strings(*t), Seq::empty()),
{
    assert(Seq::<Seq<char>>::empty().push("workspace"@) =~= seq!["workspace"@]);
    assert(Seq::<Seq<char>>::empty().push("user"@) =~= seq!["user"@]);
    assert(Seq::<Seq<char>>::empty().push("repository"@) =~= seq!["repository"@]);
    assert(Seq::<Seq<char>>::empty().push("api_url"@) =~= seq!["api_url"@]);
    assert(Seq::<Seq<char>>::empty().push("remote"@) =~= seq!["remote"@]);
    assert(Seq::<Seq<char>>::empty().push("output_format"@) =~= seq!["output_format"@]);
    Profile {
        workspace: read_str(t, "workspace"),
        user: read_str(t, "user"),
        repository: read_str(t, "repository"),
        api_url: read_str(t, "api_url"),
        remote: read_str(t, "remote"),
        output_format: read_str(t, "output_format"),
    }
}

proof fn lemma_profile_read_inside(p: Profile, s: Map<Seq<Seq<char>>, Seq<char>>, k: Seq<char>, base: Seq<Seq<char>>)
    requires
        profile_read(p, inside(s, k), base),
    ensures
        profile_read(p, s, seq![k] + base),
{
    assert(seq![k] + base.push("workspace"@) =~= (seq![k] + base).push("workspace"@));
    assert(seq![k] + base.push("user"@) =~= (seq![k] + base).push("user"@));
    assert(seq![k] + base.push("repository"@) =~= (seq![k] + base).push("repository"@));
    assert(seq![k] + base.push("api_url"@) =~= (seq![k] + base).push("api_url"@));
    assert(seq![k] + base.push("remote"@) =~= (seq![k] + base).push("remote"@));
    assert(seq![k] + base.push("output_format"@) =~= (seq![k] + base).push("output_format"@));
}

/// The profile entries of a configuration.
pub open spec fn entries_of(c: ProfileConfig) -> Seq<(String, Profile)> {
    match c.profiles {
        Some(v) => v@,
        None => Seq::empty(),
    }
}

/// One profile for each table entry of `pt`, named by its key.
fn read_profiles(pt: &toml_edit::Table) -> (r: Vec<(String, Profile)>)
    ensures
        forall|e: int|
            0 <= e < r@.len() ==> table_at(toml_nodes(*pt), seq![#[trigger] r@[e].0@])
                && profile_read(r@[e].1, toml_strings(*pt), seq![r@[e].0@]),
        forall|k: Seq<char>|
            table_at(toml_nodes(*pt), seq![k]) ==> exists|e: int|
                0 <= e < r@.len() && #[trigger] r@[e].0@ == k,
{
    let keys = table_keys(pt);
    let mut entries: Vec<(String, Profile)> = Vec::new();
    let mut i: usize = 0;
    while i < keys.len()
        invariant
            i <= keys.len(),
            forall|e: int|
                0 <= e < entries@.len() ==> table_at(toml_nodes(*pt), seq![#[trigger] entries@[e].0@])
                    && profile_read(entries@[e].1, toml_strings(*pt), seq![entries@[e].0@]),
            forall|a: int|
                0 <= a < i && table_at(toml_nodes(*pt), seq![#[trigger] keys@[a]@]) ==> exists|e: int|
                    0 <= e < entries@.len() && entries@[e].0@ == keys@[a]@,
        decreases keys.len() - i,
    {
        let ghost before = entries@;
        let ghost key = keys@[i as int]@;
        match lookup(pt, keys[i].as_str()) {
            Lookup::Table(pc) => {
                let p = read_profile(&pc);
                proof {
                    lemma_profile_read_inside(p, toml_strings(*pt), key, Seq::empty());
                    assert(seq![key] + Seq::<Seq<char>>::empty() =~= seq![key]);
                }
                entries.push((keys[i].clone(), p));
                proof {
                    let last = entries@.len() - 1;
                    assert(entries@[last].0@ == key);
                    assert forall|a: int|
                        0 <= a < i + 1 && table_at(toml_nodes(*pt), seq![#[trigger] keys@[a]@]) implies exists|e: int|
                            0 <= e < entries@.len() && entries@[e].0@ == keys@[a]@ by {
                        if a == i {
                            assert(entries@[last].0@ == keys@[a]@);
                        } else {
                            let e = choose|e: int| 0 <= e < before.len() && before[e].0@ == keys@[a]@;
                            assert(entries@[e] == before[e]);
                        }
                    }
                    assert forall|e: int| 0 <= e < entries@.len() implies table_at(toml_nodes(*pt), seq![#[trigger] entries@[e].0@])
                        && profile_read(entries@[e].1, toml_strings(*pt), seq![entries@[e].0@]) by {
                        if e < last {
                            assert(entries@[e] == before[e]);
                        }
                    }
                }
            },
            _ => {},
        }
        i = i + 1;
    }
    proof {
        assert forall|k: Seq<char>| table_at(toml_nodes(*pt), seq![k]) implies exists|e: int|
            0 <= e < entries@.len() && #[trigger] entries@[e].0@ == k by {
            let a = choose|a: int| 0 <= a < keys@.len() && keys@[a]@ == k;
            assert(table_at(toml_nodes(*pt), seq![keys@[a]@]));
        }
    }
    entries
}

/// Whether `r` is the configuration that the maps `s` and `n` of a table
/// describe: the selected profile's name under `user`, and one profile for
/// each table under `profile`, read from its string entries.
pub open spec fn describes_config(
    r: ProfileConfig,
    s: Map<Seq<Seq<char>>, Seq<char>>,
    n: Map<Seq<Seq<char>>, bool>,
) -> bool {
    &&& opt_view(r.user) == str_at(s, seq!["user"@])
    &&& r.profiles is Some <==> table_at(n, seq!["profile"@])
    &&& forall|i: int|
        0 <= i < entries_of(r).len() ==> table_at(n, seq!["profile"@, #[trigger] entries_of(r)[i].0@])
            && profile_read(entries_of(r)[i].1, s, seq!["profile"@, entries_of(r)[i].0@])
    &&& forall|k: Seq<char>|
        table_at(n, seq!["profile"@, k]) ==> exists|i: int|
            0 <= i < entries_of(r).len() && #[trigger] entries_of(r)[i].0@ == k
}

/// Whether `r` is the project setting that the maps `s` and `n` of a
/// checkout's configuration table describe.
pub open spec fn describes_local(
    r: LocalProjectConfig,
    s: Map<Seq<Seq<char>>, Seq<char>>,
    n: Map<Seq<Seq<char>>, bool>,
) -> bool {
    &&& r.project is Some <==> table_at(n, seq!["project"@])
    &&& match r.project {
        Some(p) => opt_view(p.workspace) == str_at(s, seq!["project"@, "workspace"@])
            && opt_view(p.repository) == str_at(s, seq!["project"@, "repository"@])
            && opt_view(p.remote) == str_at(s, seq!["project"@, "remote"@]),
        None => true,
    }
}

impl ProfileConfig {
    /// The configuration that a global configuration table describes: the
    /// selected profile's name under `user`, and one profile for each table
    /// under `profile`, read from its string entries.
    pub fn from_table(t: &toml_edit::Table) -> (r: ProfileConfig)
        ensures
            describes_config(r, toml_strings(*t), toml_nodes(*t)),
    {
        let user = read_str(t, "user");
        match lookup(t, "profile") {
            Lookup::Table(pt) => {
                let entries = read_profiles(&pt);
                let r = ProfileConfig { user, profiles: Some(entries) };
                proof {
                    assert(entries_of(r) == entries@);
                    assert forall|i: int| 0 <= i < entries_of(r).len() implies table_at(
                        toml_nodes(*t),
                        seq!["profile"@, #[trigger] entries_of(r)[i].0@],
                    ) && profile_read(entries_of(r)[i].1, toml_strings(*t), seq!["profile"@, entries_of(r)[i].0@]) by {
                        let k = entries@[i].0@;
                        assert(table_at(toml_nodes(pt), seq![k]));
                        assert(seq!["profile"@] + seq![k] =~= seq!["profile"@, k]);
                        lemma_profile_read_inside(entries@[i].1, toml_strings(*t), "profile"@, seq![k]);
                    }
                    assert forall|k: Seq<char>| table_at(toml_nodes(*t), seq!["profile"@, k]) implies exists|i: int|
                        0 <= i < entries_of(r).len() && #[trigger] entries_of(r)[i].0@ == k by {
                        assert(seq!["profile"@] + seq![k] =~= seq!["profile"@, k]);
                        assert(table_at(toml_nodes(pt), seq![k]));
                        let e = choose|e: int| 0 <= e < entries@.len() && entries@[e].0@ == k;
                        assert(entries_of(r)[e].0@ == k);
                    }
                }
                r
            },
            _ => {
                proof {
                    assert forall|k: Seq<char>| !table_at(toml_nodes(*t), seq!["profile"@, k]) by {
                        assert(seq!["profile"@] + seq![k] =~= seq!["profile"@, k]);
                        assert(!inside(toml_nodes(*t), "profile"@).contains_key(seq![k]));
                    }
                }
                ProfileConfig { user, profiles: None }
            },
        }
    }
}

/// Whether `q` starts with the key path `p`.
pub open spec fn has_prefix(p: Seq<Seq<char>>, q: Seq<Seq<char>>) -> bool {
    p.len() <= q.len() && q.take(p.len() as int) == p
}

/// What holds of the maps of every table: paths are not empty, an entry is a
/// string or another item but not both, and every proper prefix of a path
/// is a table.
pub open spec fn well_formed(s: Map<Seq<Seq<char>>, Seq<char>>, n: Map<Seq<Seq<char>>, bool>) -> bool {
    &&& forall|q: Seq<Seq<char>>| #[trigger] s.contains_key(q) ==> q.len() > 0 && !n.contains_key(q)
    &&& forall|q: Seq<Seq<char>>| #[trigger] n.contains_key(q) ==> q.len() > 0
    &&& forall|q: Seq<Seq<char>>, j: int|
        s.contains_key(q) && 1 <= j < q.len() ==> table_at(n, #[trigger] q.take(j))
    &&& forall|q: Seq<Seq<char>>, j: int|
        n.contains_key(q) && 1 <= j < q.len() ==> table_at(n, #[trigger] q.take(j))
}

proof fn lemma_well_formed_inside(s: Map<Seq<Seq<char>>, Seq<char>>, n: Map<Seq<Seq<char>>, bool>, k: Seq<char>)
    requires
        well_formed(s, n),
    ensures
        well_formed(inside(s, k), inside(n, k)),
{
    let cs = inside(s, k);
    let cn = inside(n, k);
    assert forall|q: Seq<Seq<char>>, j: int| cs.contains_key(q) && 1 <= j < q.len() implies table_at(cn, #[trigger] q.take(j)) by {
        let full = seq![k] + q;
        assert(s.contains_key(full));
        assert(full.take(j + 1) =~= seq![k] + q.take(j));
        assert(table_at(n, full.take(j + 1)));
    }
    assert forall|q: Seq<Seq<char>>, j: int| cn.contains_key(q) && 1 <= j < q.len() implies table_at(cn, #[trigger] q.take(j)) by {
        let full = seq![k] + q;
        assert(n.contains_key(full));
        assert(full.take(j + 1) =~= seq![k] + q.take(j));
        assert(table_at(n, full.take(j + 1)));
    }
}

/// Setting a string at `path` puts it there, with a table at each proper prefix.
pub proof fn lemma_set_value(
    s: Map<Seq<Seq<char>>, Seq<char>>,
    n: Map<Seq<Seq<char>>, bool>,
    path: Seq<Seq<char>>,
    v: Seq<char>,
)
    requires
        set_result(s, n, path, v) is Some,
    ensures
        str_at(set_strings(s, n, path, v), path) == Some(v),
        forall|j: int| 1 <= j < path.len() ==> table_at(set_nodes(s, n, path, v), #[trigger] path.take(j)),
    decreases path.len(),
{
    let m = set_result(s, n, path, v)->0;
    let k = path[0];
    if path.len() == 1 {
        assert(path =~= seq![k]);
    } else {
        let child = if n.contains_key(seq![k]) && n[seq![k]] {
            (inside(s, k), inside(n, k))
        } else {
            (no_strings(), no_nodes())
        };
        lemma_set_value(child.0, child.1, path.skip(1), v);
        let cm = set_result(child.0, child.1, path.skip(1), v)->0;
        assert(nested(k, cm.0).contains_key(path));
        assert forall|j: int| 1 <= j < path.len() implies table_at(m.1, #[trigger] path.take(j)) by {
            if j == 1 {
                assert(path.take(1) =~= seq![k]);
                assert(!nested(k, cm.1).contains_key(path.take(1)));
            } else {
                assert(path.take(j).skip(1) =~= path.skip(1).take(j - 1));
                assert(table_at(cm.1, path.skip(1).take(j - 1)));
                assert(nested(k, cm.1).contains_key(path.take(j)));
            }
        }
    }
}

/// Setting a string at `path` keeps every string that does not lie under `path`.
pub proof fn lemma_set_preserves(
    s: Map<Seq<Seq<char>>, Seq<char>>,
    n: Map<Seq<Seq<char>>, bool>,
    path: Seq<Seq<char>>,
    v: Seq<char>,
)
    requires
        well_formed(s, n),
        set_result(s, n, path, v) is Some,
    ensures
        forall|q: Seq<Seq<char>>|
            s.contains_key(q) && !has_prefix(path, q) ==> str_at(set_strings(s, n, path, v), q)
                == Some(#[trigger] s[q]),
    decreases path.len(),
{
    let m = set_result(s, n, path, v)->0;
    let k = path[0];
    if path.len() == 1 {
        assert(m.0 == without(s, k).insert(seq![k], v));
        assert(path =~= seq![k]);
        assert forall|q: Seq<Seq<char>>| s.contains_key(q) && !has_prefix(path, q) implies str_at(m.0, q) == Some(#[trigger] s[q]) by {
            assert(q.len() > 0);
            if q[0] == k {
                assert(q.take(1) =~= path);
            }
            assert(q != seq![k]);
            assert(without(s, k).contains_key(q));
        }
    } else if n.contains_key(seq![k]) && n[seq![k]] {
        lemma_well_formed_inside(s, n, k);
        lemma_set_preserves(inside(s, k), inside(n, k), path.skip(1), v);
        let cm = set_result(inside(s, k), inside(n, k), path.skip(1), v)->0;
        assert(m.0 == merge(without(s, k), nested(k, cm.0)));
        assert forall|q: Seq<Seq<char>>| s.contains_key(q) && !has_prefix(path, q) implies str_at(m.0, q) == Some(#[trigger] s[q]) by {
            assert(q.len() > 0);
            if q[0] == k {
                if q.len() == 1 {
                    assert(q =~= seq![k]);
                }
                let rest = q.skip(1);
                assert(seq![k] + rest =~= q);
                assert(inside(s, k).contains_key(rest));
                assert(inside(s, k)[rest] == s[q]);
                if has_prefix(path.skip(1), rest) {
                    assert(q.take(path.len() as int) =~= seq![k] + rest.take(path.len() - 1));
                    assert(path =~= seq![k] + path.skip(1));
                }
                assert(nested(k, cm.0).contains_key(q));
            }
        }
    } else {
        let cm = set_result(no_strings(), no_nodes(), path.skip(1), v)->0;
        assert(m.0 == merge(without(s, k), nested(k, cm.0)));
        assert forall|q: Seq<Seq<char>>| s.contains_key(q) && !has_prefix(path, q) implies str_at(m.0, q) == Some(#[trigger] s[q]) by {
            assert(q.len() > 0);
            if q[0] == k {
                if q.len() == 1 {
                    assert(q =~= seq![k]);
                } else {
                    assert(table_at(n, q.take(1)));
                    assert(q.take(1) =~= seq![k]);
                }
            }
        }
    }
}

pub open spec fn default_workspace_path() -> Seq<Seq<char>> {
    seq!["profile"@, "default"@, "workspace"@]
}

/// Setting `profile.default.workspace` to `v` and reading the table back
/// gives a `profile` table holding a `default` table whose `workspace` is
/// `v` (so `ProfileConfig::from_table` yields a profile named `default` with
/// that workspace), and every other string of the table is kept.
pub proof fn set_then_load(s: Map<Seq<Seq<char>>, Seq<char>>, n: Map<Seq<Seq<char>>, bool>, v: Seq<char>)
    requires
        well_formed(s, n),
        set_result(s, n, default_workspace_path(), v) is Some,
    ensures
        table_at(set_nodes(s, n, default_workspace_path(), v), seq!["profile"@]),
        table_at(set_nodes(s, n, default_workspace_path(), v), seq!["profile"@, "default"@]),
        str_at(
            set_strings(s, n, default_workspace_path(), v),
            seq!["profile"@, "default"@].push("workspace"@),
        ) == Some(v),
        forall|q: Seq<Seq<char>>|
            s.contains_key(q) && !has_prefix(default_workspace_path(), q) ==> str_at(
                set_strings(s, n, default_workspace_path(), v),
                q,
            ) == Some(#[trigger] s[q]),
{
    let p = default_workspace_path();
    lemma_set_value(s, n, p, v);
    lemma_set_preserves(s, n, p, v);
    assert(p.take(1) =~= seq!["profile"@]);
    assert(p.take(2) =~= seq!["profile"@, "default"@]);
    assert(seq!["profile"@, "default"@].push("workspace"@) =~= p);
}

impl ProfileConfig {
    /// Reads the global configuration from the text of its file.
    pub fn load_global(text: &str) -> (r: Result<ProfileConfig, ConfigError>)
        ensures
            r is Ok <==> toml_parses(text@),
            match r {
                Ok(c) => describes_config(c, text_strings(text@), text_nodes(text@)),
                Err(e) => e == ConfigError::Parse,
            },
    {
        let doc = match parse_document(text) {
            Ok(doc) => doc,
            Err(_) => return Err(ConfigError::Parse),
        };
        Ok(ProfileConfig::from_document(&doc))
    }

    /// Reads the global configuration from the text of its file, as
    /// `load_global` does.
    pub fn load(text: &str) -> (r: Result<ProfileConfig, ConfigError>)
        ensures
            r is Ok <==> toml_parses(text@),
            match r {
                Ok(c) => describes_config(c, text_strings(text@), text_nodes(text@)),
                Err(e) => e == ConfigError::Parse,
            },
    {
        ProfileConfig::load_global(text)
    }

    /// The configuration that a global configuration document describes.
    pub fn from_document(doc: &toml_edit::DocumentMut) -> (r: ProfileConfig)
        ensures
            describes_config(r, doc_strings(*doc), doc_nodes(*doc)),
    {
        let root = root_table(doc);
        ProfileConfig::from_table(&root)
    }

    /// Reads a checkout's own configuration from the text of its file.
    pub fn load_local(text: &str) -> (r: Result<LocalProjectConfig, ConfigError>)
        ensures
            r is Ok <==> toml_parses(text@),
            match r {
                Ok(c) => describes_local(c, text_strings(text@), text_nodes(text@)),
                Err(e) => e == ConfigError::Parse,
            },
    {
        let doc = match parse_document(text) {
            Ok(doc) => doc,
            Err(_) => return Err(ConfigError::Parse),
        };
        let root = root_table(&doc);
        Ok(LocalProjectConfig::from_table(&root))
    }
}

impl LocalProjectConfig {
    /// The project settings that a checkout's configuration table describes.
    pub fn from_table(t: &toml_edit::Table) -> (r: LocalProjectConfig)
        ensures
            describes_local(r, toml_strings(*t), toml_nodes(*t)),
    {
        match lookup(t, "project") {
            Lookup::Table(pt) => {
                let workspace = read_str(&pt, "workspace");
                let repository = read_str(&pt, "repository");
                let remote = read_str(&pt, "remote");
                assert(seq!["project"@] + seq!["workspace"@] =~= seq!["project"@, "workspace"@]);
                assert(seq!["project"@] + seq!["repository"@] =~= seq!["project"@, "repository"@]);
                assert(seq!["project"@] + seq!["remote"@] =~= seq!["project"@, "remote"@]);
                LocalProjectConfig { project: Some(ProjectContext { workspace, repository, remote }) }
            },
            _ => LocalProjectConfig { project: None },
        }
    }
}

/// Sets the dotted `key` to the string `value` in the TOML `text`, creating
/// the tables on the way and keeping everything else; gives the edited
/// document, which keeps the text's formatting where it can.
pub fn set_config_value(text: &str, key: &str, value: &str) -> (r: Result<toml_edit::DocumentMut, ConfigError>)
    ensures
        !toml_parses(text@) <==> r == Err::<toml_edit::DocumentMut, _>(ConfigError::Parse),
        toml_parses(text@) ==> (r is Ok <==> set_result(
            text_strings(text@),
            text_nodes(text@),
            split_on(key@, '.'),
            value@,
        ) is Some),
        match r {
            Ok(d) => doc_strings(d) == set_strings(
                text_strings(text@),
                text_nodes(text@),
                split_on(key@, '.'),
                value@,
            ) && doc_nodes(d) == set_nodes(
                text_strings(text@),
                text_nodes(text@),
                split_on(key@, '.'),
                value@,
            ),
            Err(ConfigError::KeyConflict(_)) => toml_parses(text@),
            Err(ConfigError::Parse) => !toml_parses(text@),
        },
{
    let mut doc = match parse_document(text) {
        Ok(doc) => doc,
        Err(_) => return Err(ConfigError::Parse),
    };
    let parts = split_dots(key);
    assert(string_views(parts@).skip(0) =~= string_views(parts@));
    let mut root = new_table();
    swap_root(&mut doc, &mut root);
    match set_in_table(&mut root, &parts, 0, value) {
        Ok(()) => {},
        Err(e) => return Err(e),
    }
    swap_root(&mut doc, &mut root);
    Ok(doc)
}

/// A checkout's configuration document whose `project` table names its
/// workspace, repository and remote.
pub fn init_local_config(workspace: &str, repo: &str, remote: &str) -> (r: toml_edit::DocumentMut)
    ensures
        table_at(doc_nodes(r), seq!["project"@]),
        str_at(doc_strings(r), seq!["project"@, "workspace"@]) == Some(workspace@),
        str_at(doc_strings(r), seq!["project"@, "repository"@]) == Some(repo@),
        str_at(doc_strings(r), seq!["project"@, "remote"@]) == Some(remote@),
{
    let mut project = new_table();
    insert_item(&mut project, "workspace", NewItem::Str(workspace.to_string()));
    insert_item(&mut project, "repository", NewItem::Str(repo.to_string()));
    insert_item(&mut project, "remote", NewItem::Str(remote.to_string()));
    proof {
        reveal_strlit("workspace");
        reveal_strlit("repository");
        reveal_strlit("remote");
        assert("workspace"@.len() != "repository"@.len());
        assert("workspace"@.len() != "remote"@.len());
        assert("repository"@.len() != "remote"@.len());
        assert(seq!["workspace"@][0] != seq!["remote"@][0]);
        assert(seq!["workspace"@] != seq!["remote"@]);
        assert(seq!["workspace"@][0] != seq!["repository"@][0]);
        assert(seq!["workspace"@] != seq!["repository"@]);
        assert(seq!["repository"@][0] != seq!["remote"@][0]);
        assert(seq!["repository"@] != seq!["remote"@]);
    }
    let ghost ps = toml_strings(project);
    assert(ps.contains_key(seq!["workspace"@]) && ps[seq!["workspace"@]] == workspace@);
    assert(ps.contains_key(seq!["repository"@]) && ps[seq!["repository"@]] == repo@);
    let mut root = new_table();
    insert_item(&mut root, "project", NewItem::Table(project));
    let mut doc = new_document();
    swap_root(&mut doc, &mut root);
    assert(seq!["project"@, "workspace"@].skip(1) =~= seq!["workspace"@]);
    assert(seq!["project"@, "repository"@].skip(1) =~= seq!["repository"@]);
    assert(seq!["project"@, "remote"@].skip(1) =~= seq!["remote"@]);
    doc
}

/// The profile `profile_named` finds is the entry of the first index with that name.
proof fn lemma_profile_named(entries: Seq<(String, Profile)>, k: Seq<char>)
    ensures
        profile_named(entries, k) is Some <==> exists|i: int| 0 <= i < entries.len() && entries[i].0@ == k,
        match profile_named(entries, k) {
            Some(p) => exists|i: int| 0 <= i < entries.len() && entries[i].0@ == k && entries[i].1 == p,
            None => true,
        },
    decreases entries.len(),
{
    if entries.len() > 0 {
        let rest = entries.skip(1);
        lemma_profile_named(rest, k);
        if entries[0].0@ != k {
            if exists|i: int| 0 <= i < entries.len() && entries[i].0@ == k {
                let i = choose|i: int| 0 <= i < entries.len() && entries[i].0@ == k;
                assert(rest[i - 1] == entries[i]);
            }
            if profile_named(rest, k) is Some {
                let j = choose|j: int| 0 <= j < rest.len() && rest[j].0@ == k && rest[j].1 == profile_named(rest, k)->0;
                assert(entries[j + 1] == rest[j]);
            }
        }
    }
}

/// Whether two profiles hold the same settings.
pub open spec fn same_settings(p: Profile, q: Profile) -> bool {
    &&& opt_view(p.workspace) == opt_view(q.workspace)
    &&& opt_view(p.user) == opt_view(q.user)
    &&& opt_view(p.repository) == opt_view(q.repository)
    &&& opt_view(p.api_url) == opt_view(q.api_url)
    &&& opt_view(p.remote) == opt_view(q.remote)
    &&& opt_view(p.output_format) == opt_view(q.output_format)
}

/// Two configurations read from the same table select the same profile
/// name and find, under every name, a profile with the same settings or none.
pub proof fn same_table_same_config(
    a: ProfileConfig,
    b: ProfileConfig,
    s: Map<Seq<Seq<char>>, Seq<char>>,
    n: Map<Seq<Seq<char>>, bool>,
    k: Seq<char>,
)
    requires
        describes_config(a, s, n),
        describes_config(b, s, n),
    ensures
        opt_view(a.user) == opt_view(b.user),
        a.profiles is Some <==> b.profiles is Some,
        profile_named(entries_of(a), k) is Some <==> profile_named(entries_of(b), k) is Some,
        match (profile_named(entries_of(a), k), profile_named(entries_of(b), k)) {
            (Some(p), Some(q)) => same_settings(p, q),
            _ => true,
        },
{
    lemma_profile_named(entries_of(a), k);
    lemma_profile_named(entries_of(b), k);
    if exists|i: int| 0 <= i < entries_of(a).len() && entries_of(a)[i].0@ == k {
        let i = choose|i: int| 0 <= i < entries_of(a).len() && entries_of(a)[i].0@ == k;
        assert(table_at(n, seq!["profile"@, entries_of(a)[i].0@]));
    }
    if exists|i: int| 0 <= i < entries_of(b).len() && entries_of(b)[i].0@ == k {
        let i = choose|i: int| 0 <= i < entries_of(b).len() && entries_of(b)[i].0@ == k;
        assert(table_at(n, seq!["profile"@, entries_of(b)[i].0@]));
    }
    match (profile_named(entries_of(a), k), profile_named(entries_of(b), k)) {
        (Some(p), Some(q)) => {
            let i = choose|i: int| 0 <= i < entries_of(a).len() && entries_of(a)[i].0@ == k && entries_of(a)[i].1 == p;
            let j = choose|j: int| 0 <= j < entries_of(b).len() && entries_of(b)[j].0@ == k && entries_of(b)[j].1 == q;
            assert(profile_read(entries_of(a)[i].1, s, seq!["profile"@, entries_of(a)[i].0@]));
            assert(profile_read(entries_of(b)[j].1, s, seq!["profile"@, entries_of(b)[j].0@]));
        },
        _ => {},
    }
}

/// Setting `profile.default.workspace` to `v` and reading the result back
/// gives a configuration whose profile `default` has workspace `v`.
pub proof fn set_then_load_config(
    s: Map<Seq<Seq<char>>, Seq<char>>,
    n: Map<Seq<Seq<char>>, bool>,
    v: Seq<char>,
    c: ProfileConfig,
)
    requires
        well_formed(s, n),
        set_result(s, n, default_workspace_path(), v) is Some,
        describes_config(
            c,
            set_strings(s, n, default_workspace_path(), v),
            set_nodes(s, n, default_workspace_path(), v),
        ),
    ensures
        c.profiles is Some,
        match profile_named(entries_of(c), "default"@) {
            Some(p) => opt_view(p.workspace) == Some(v),
            None => false,
        },
{
    let s2 = set_strings(s, n, default_workspace_path(), v);
    set_then_load(s, n, v);
    lemma_profile_named(entries_of(c), "default"@);
    let i0 = choose|i: int| 0 <= i < entries_of(c).len() && #[trigger] entries_of(c)[i].0@ == "default"@;
    let p = profile_named(entries_of(c), "default"@)->0;
    let i = choose|i: int| 0 <= i < entries_of(c).len() && entries_of(c)[i].0@ == "default"@ && entries_of(c)[i].1 == p;
    assert(profile_read(entries_of(c)[i].1, s2, seq!["profile"@, entries_of(c)[i].0@]));
}

} // verus!
