//! The persisted form of the store: a TOML document with one table whose
//! keys are guild identifiers in decimal and whose values are the guilds'
//! service lists.

use crate::decimal::{decimal, lemma_parse_decimal, parse_decimal, parse_spec, to_decimal};
use crate::store::{added_all, allowed, lemma_adds_keep_all, names_of, ServersCfg};
use std::collections::BTreeMap;
use vstd::prelude::*;
use vstd::string::StringExecFns;

verus! {

#[verifier::external_type_specification]
#[verifier::external_body]
pub struct ExTomlSerError(toml::ser::Error);

#[verifier::external_type_specification]
#[verifier::external_body]
pub struct ExTomlDeError(toml::de::Error);

/// A table of the document: its keys with their string arrays.
pub open spec fn table_view(t: Seq<(String, Vec<String>)>) -> Seq<(Seq<char>, Seq<Seq<char>>)> {
    t.map_values(|e: (String, Vec<String>)| (e.0@, names_of(e.1@)))
}

/// A document: its named tables.
pub open spec fn doc_view(d: Seq<(String, Vec<(String, Vec<String>)>)>) -> Seq<
    (Seq<char>, Seq<(Seq<char>, Seq<Seq<char>>)>),
> {
    d.map_values(|e: (String, Vec<(String, Vec<String>)>)| (e.0@, table_view(e.1@)))
}

/// The text that the TOML writer makes of a document.
pub uninterp spec fn toml_text_of(doc: Seq<(Seq<char>, Seq<(Seq<char>, Seq<Seq<char>>)>)>) -> Seq<
    char,
>;

/// The document that the TOML reader finds in a text, if it reads as tables
/// of string arrays.
pub uninterp spec fn toml_document_of(text: Seq<char>) -> Option<
    Seq<(Seq<char>, Seq<(Seq<char>, Seq<Seq<char>>)>)>,
>;

/// Relies on toml::to_string_pretty: the text depends on the document alone
/// (the tables are handed over as ordered maps), and tables of string keys
/// and string arrays are always written.
#[verifier::external_body]
fn render_toml(doc: &Vec<(String, Vec<(String, Vec<String>)>)>) -> (r: Result<
    String,
    toml::ser::Error,
>)
    ensures
        r is Ok,
        r matches Ok(t) ==> t@ == toml_text_of(doc_view(doc@)),
{
    let tables: BTreeMap<&String, BTreeMap<&String, &Vec<String>>> = doc.iter().map(
        |(name, table)| (name, table.iter().map(|(k, v)| (k, v)).collect()),
    ).collect();
    toml::to_string_pretty(&tables)
}

/// Relies on toml::from_str: whether a text reads as tables of string
/// arrays, and what it reads as, depend on the text alone.
#[verifier::external_body]
fn read_toml(text: &str) -> (r: Result<Vec<(String, Vec<(String, Vec<String>)>)>, toml::de::Error>)
    ensures
        r is Ok <==> toml_document_of(text@) is Some,
        r matches Ok(d) ==> toml_document_of(text@) == Some(doc_view(d@)),
{
    let tables: BTreeMap<String, BTreeMap<String, Vec<String>>> = toml::from_str(text)?;
    Ok(tables.into_iter().map(|(name, table)| (name, table.into_iter().collect())).collect())
}

/// Why the store could not be written out.
#[derive(Debug, PartialEq, Eq, Structural, Clone, Copy)]
pub enum SaveError {
    /// The TOML writer refused the document.
    Encode,
    /// The file could not be written or moved into place.
    Write,
}

/// The name of the document's one table.
pub open spec fn table_name() -> Seq<char> {
    "servers_services"@
}

/// The table entries of allow-lists `m`, one per guild of `order`.
pub open spec fn entries_of(m: Map<u64, Seq<Seq<char>>>, order: Seq<u64>) -> Seq<
    (Seq<char>, Seq<Seq<char>>),
> {
    order.map_values(|t: u64| (decimal(t as nat), m[t]))
}

/// The document that holds allow-lists `m`, guilds in `order`.
pub open spec fn document_of(m: Map<u64, Seq<Seq<char>>>, order: Seq<u64>) -> Seq<
    (Seq<char>, Seq<(Seq<char>, Seq<Seq<char>>)>),
> {
    seq![(table_name(), entries_of(m, order))]
}

/// The entries of the first table named like the store's table.
pub open spec fn section_of(doc: Seq<(Seq<char>, Seq<(Seq<char>, Seq<Seq<char>>)>)>) -> Option<
    Seq<(Seq<char>, Seq<Seq<char>>)>,
>
    decreases doc.len(),
{
    if doc.len() == 0 {
        None
    } else if doc[0].0 == table_name() {
        Some(doc[0].1)
    } else {
        section_of(doc.drop_first())
    }
}

/// The allow-lists that table entries describe: `None` unless every key is
/// a guild identifier in decimal and no guild comes twice.
pub open spec fn store_of_entries(e: Seq<(Seq<char>, Seq<Seq<char>>)>) -> Option<
    Map<u64, Seq<Seq<char>>>,
>
    decreases e.len(),
{
    if e.len() == 0 {
        Some(Map::empty())
    } else {
        match store_of_entries(e.drop_last()) {
            None => None,
            Some(m) => match parse_spec(e.last().0) {
                None => None,
                Some(t) => if m.contains_key(t) {
                    None
                } else {
                    Some(m.insert(t, e.last().1))
                },
            },
        }
    }
}

/// The allow-lists that a document describes, if it is well formed.
pub open spec fn store_of_document(doc: Seq<(Seq<char>, Seq<(Seq<char>, Seq<Seq<char>>)>)>) -> Option<
    Map<u64, Seq<Seq<char>>>,
> {
    match section_of(doc) {
        None => None,
        Some(e) => store_of_entries(e),
    }
}

/// The allow-lists that a file's text describes, if it is well formed.
pub open spec fn store_of_text(text: Seq<char>) -> Option<Map<u64, Seq<Seq<char>>>> {
    match toml_document_of(text) {
        None => None,
        Some(doc) => store_of_document(doc),
    }
}

/// What loading gives: the allow-lists of the file where it exists and is
/// well formed, else none at all.
pub open spec fn loaded(contents: Option<Seq<char>>) -> Map<u64, Seq<Seq<char>>> {
    match contents {
        Some(text) => match store_of_text(text) {
            Some(m) => m,
            None => Map::empty(),
        },
        None => Map::empty(),
    }
}

fn copy_names(l: &Vec<String>) -> (r: Vec<String>)
    ensures
        names_of(r@) == names_of(l@),
{
    let mut r: Vec<String> = Vec::new();
    let mut i: usize = 0;
    while i < l.len()
        invariant
            0 <= i <= l@.len(),
            r@ == l@.subrange(0, i as int),
        decreases l@.len() - i,
    {
        r.push(l[i].clone());
        i = i + 1;
        assert(r@ =~= l@.subrange(0, i as int));
    }
    assert(l@.subrange(0, i as int) =~= l@);
    r
}

fn table_name_str() -> (r: &'static str)
    ensures
        r@ == table_name(),
{
    "servers_services"
}

impl ServersCfg {
    /// The document that holds this store: one table, one entry per guild,
    /// in the store's guild order.
    pub fn to_document(&self) -> (r: Vec<(String, Vec<(String, Vec<String>)>)>)
        requires
            self.wf(),
        ensures
            doc_view(r@) == document_of(self@, self.tenant_order()),
    {
        proof {
            self.lemma_wf_view();
        }
        let ids = self.tenant_ids();
        let mut entries: Vec<(String, Vec<String>)> = Vec::new();
        let mut i: usize = 0;
        while i < ids.len()
            invariant
                0 <= i <= ids@.len(),
                ids@ == self.tenant_order(),
                forall|t: u64| self@.contains_key(t) <==> #[trigger] ids@.contains(t),
                table_view(entries@) == entries_of(self@, ids@.subrange(0, i as int)),
            decreases ids@.len() - i,
        {
            let t = ids[i];
            assert(ids@.contains(t));
            let list = match self.services_of(t) {
                Some(l) => copy_names(l),
                None => Vec::new(),
            };
            assert(names_of(list@) == self@[t]);
            let ghost prev = entries@;
            let key = to_decimal(t);
            entries.push((key, list));
            assert(table_view(entries@) =~= table_view(prev).push((decimal(t as nat), self@[t])));
            assert(entries_of(self@, ids@.subrange(0, i as int + 1)) =~= entries_of(
                self@,
                ids@.subrange(0, i as int),
            ).push((decimal(t as nat), self@[t])));
            i = i + 1;
        }
        assert(ids@.subrange(0, i as int) =~= ids@);
        let mut doc: Vec<(String, Vec<(String, Vec<String>)>)> = Vec::new();
        doc.push((String::from_str(table_name_str()), entries));
        assert(doc_view(doc@) =~= document_of(self@, self.tenant_order()));
        doc
    }

    /// The text of the file that holds this store.
    pub fn encode(&self) -> (r: Result<String, SaveError>)
        requires
            self.wf(),
        ensures
            r is Ok,
            r matches Ok(t) ==> t@ == toml_text_of(document_of(self@, self.tenant_order())),
    {
        let doc = self.to_document();
        match render_toml(&doc) {
            Ok(t) => Ok(t),
            Err(_) => Err(SaveError::Encode),
        }
    }
}

/// The first table of `doc` named like the store's table.
fn find_section(doc: &Vec<(String, Vec<(String, Vec<String>)>)>) -> (r: Option<usize>)
    ensures
        match section_of(doc_view(doc@)) {
            None => r is None,
            Some(e) => r matches Some(i) && i < doc@.len() && table_view(doc@[i as int].1@) == e,
        },
{
    let name = String::from_str(table_name_str());
    let mut i: usize = 0;
    assert(doc_view(doc@).subrange(0, doc@.len() as int) =~= doc_view(doc@));
    while i < doc.len()
        invariant
            0 <= i <= doc@.len(),
            name@ == table_name(),
            section_of(doc_view(doc@)) == section_of(doc_view(doc@).subrange(i as int, doc@.len() as int)),
        decreases doc@.len() - i,
    {
        let ghost rest = doc_view(doc@).subrange(i as int, doc@.len() as int);
        assert(rest.drop_first() =~= doc_view(doc@).subrange(i as int + 1, doc@.len() as int));
        if doc[i].0 == name {
            return Some(i);
        }
        i = i + 1;
    }
    None
}

/// The store that a document describes, if it is well formed.
pub fn from_document(doc: &Vec<(String, Vec<(String, Vec<String>)>)>) -> (r: Option<ServersCfg>)
    ensures
        r is Some <==> store_of_document(doc_view(doc@)) is Some,
        r matches Some(c) ==> c.wf() && Some(c@) == store_of_document(doc_view(doc@)),
{
    let k = match find_section(doc) {
        None => return None,
        Some(k) => k,
    };
    let table = &doc[k].1;
    let ghost e = table_view(table@);
    assert(store_of_document(doc_view(doc@)) == store_of_entries(e));
    let mut cfg = ServersCfg::new();
    let mut i: usize = 0;
    while i < table.len()
        invariant
            0 <= i <= table@.len(),
            e == table_view(table@),
            store_of_document(doc_view(doc@)) == store_of_entries(e),
            cfg.wf(),
            store_of_entries(e.subrange(0, i as int)) == Some(cfg@),
        decreases table@.len() - i,
    {
        let ghost pre = e.subrange(0, i as int + 1);
        assert(pre.drop_last() =~= e.subrange(0, i as int));
        assert(pre.last() == e[i as int]);
        assert(e[i as int] == (table@[i as int].0@, names_of(table@[i as int].1@)));
        let t = match parse_decimal(table[i].0.as_str()) {
            None => {
                proof {
                    assert(parse_spec(pre.last().0) is None);
                    assert(store_of_entries(pre) is None);
                    lemma_entries_prefix_none(e, i as int + 1);
                }
                return None;
            },
            Some(t) => t,
        };
        assert(parse_spec(pre.last().0) == Some(t));
        if cfg.services_of(t).is_some() {
            proof {
                assert(store_of_entries(pre) is None);
                lemma_entries_prefix_none(e, i as int + 1);
            }
            return None;
        }
        let list = copy_names(&table[i].1);
        cfg.insert_new(t, list);
        assert(store_of_entries(pre) == Some(cfg@));
        i = i + 1;
    }
    assert(e.subrange(0, i as int) =~= e);
    Some(cfg)
}

/// Once a prefix of the entries is ill formed, so are the entries.
proof fn lemma_entries_prefix_none(e: Seq<(Seq<char>, Seq<Seq<char>>)>, k: int)
    requires
        0 <= k <= e.len(),
        store_of_entries(e.subrange(0, k)) is None,
    ensures
        store_of_entries(e) is None,
    decreases e.len() - k,
{
    if k < e.len() {
        let p = e.subrange(0, k + 1);
        assert(p.drop_last() =~= e.subrange(0, k));
        lemma_entries_prefix_none(e, k + 1);
    } else {
        assert(e.subrange(0, k) =~= e);
    }
}

/// The store that a file's text describes, if it is well formed.
pub fn decode(text: &str) -> (r: Option<ServersCfg>)
    ensures
        r is Some <==> store_of_text(text@) is Some,
        r matches Some(c) ==> c.wf() && Some(c@) == store_of_text(text@),
{
    match read_toml(text) {
        Err(_) => None,
        Ok(doc) => from_document(&doc),
    }
}

/// The store at start-up, from the file's text, or `None` where there is no
/// file. A missing or ill-formed file gives an empty store.
pub fn load_from(contents: Option<String>) -> (r: ServersCfg)
    ensures
        r.wf(),
        r@ == loaded(
            match contents {
                Some(t) => Some(t@),
                None => None,
            },
        ),
{
    match contents {
        None => ServersCfg::new(),
        Some(text) => match decode(text.as_str()) {
            Some(c) => c,
            None => ServersCfg::new(),
        },
    }
}

/// Reading back the entries of distinct guilds gives exactly those guilds'
/// lists.
proof fn lemma_entries_round_trip(m: Map<u64, Seq<Seq<char>>>, order: Seq<u64>)
    requires
        order.no_duplicates(),
        forall|i: int| 0 <= i < order.len() ==> m.contains_key(#[trigger] order[i]),
    ensures
        store_of_entries(entries_of(m, order)) == Some(m.restrict(order.to_set())),
    decreases order.len(),
{
    if order.len() == 0 {
        assert(m.restrict(order.to_set()) =~= Map::<u64, Seq<Seq<char>>>::empty());
    } else {
        let p = order.drop_last();
        let t = order.last();
        assert forall|i: int, j: int| 0 <= i < p.len() && 0 <= j < p.len() && i != j implies p[i]
            != p[j] by {
            assert(order[i] == p[i] && order[j] == p[j]);
        }
        assert forall|i: int| 0 <= i < p.len() implies m.contains_key(#[trigger] p[i]) by {
            assert(order[i] == p[i]);
        }
        lemma_entries_round_trip(m, p);
        let e = entries_of(m, order);
        assert(e.drop_last() =~= entries_of(m, p));
        lemma_parse_decimal(t);
        assert(order[order.len() - 1] == t);
        assert(!p.to_set().contains(t)) by {
            if p.contains(t) {
                let i = choose|i: int| 0 <= i < p.len() && p[i] == t;
                assert(order[i] == order[order.len() - 1]);
            }
        }
        assert(order.to_set() =~= p.to_set().insert(t)) by {
            assert forall|x: u64| order.to_set().contains(x) implies p.to_set().insert(t).contains(x) by {
                let i = choose|i: int| 0 <= i < order.len() && order[i] == x;
                if i < p.len() {
                    assert(p[i] == x);
                }
            }
            assert forall|x: u64| p.to_set().insert(t).contains(x) implies order.to_set().contains(x) by {
                if x != t {
                    let i = choose|i: int| 0 <= i < p.len() && p[i] == x;
                    assert(order[i] == x);
                }
            }
        }
        assert(m.restrict(order.to_set()) =~= m.restrict(p.to_set()).insert(t, m[t]));
    }
}

/// The document written for a store reads back as that store: every guild
/// keeps exactly its list.
pub proof fn lemma_document_round_trip(cfg: &ServersCfg)
    requires
        cfg.wf(),
    ensures
        store_of_document(document_of(cfg@, cfg.tenant_order())) == Some(cfg@),
{
    cfg.lemma_wf_view();
    let order = cfg.tenant_order();
    assert forall|i: int| 0 <= i < order.len() implies cfg@.contains_key(#[trigger] order[i]) by {
        assert(order.contains(order[i]));
    }
    lemma_entries_round_trip(cfg@, order);
    assert(cfg@.restrict(order.to_set()) =~= cfg@);
    let d = document_of(cfg@, order);
    assert(section_of(d) == Some(entries_of(cfg@, order)));
}

/// The well-known path of the store's file: one for development builds and
/// one for release builds.
pub open spec fn location_spec(development: bool) -> Seq<char> {
    if development {
        "dev.servers.toml"@
    } else {
        "servers.toml"@
    }
}

/// The well-known path of the store's file.
pub fn server_cfg_location(development: bool) -> (r: &'static str)
    ensures
        r@ == location_spec(development),
{
    if development {
        "dev.servers.toml"
    } else {
        "servers.toml"
    }
}

/// The path that a new file is written to before it is moved over the
/// store's file, so that the file is never seen half written.
pub fn temp_location(development: bool) -> (r: String)
    ensures
        r@ == location_spec(development) + ".tmp"@,
{
    String::from_str(server_cfg_location(development)).concat(".tmp")
}

/// A run of adds to one guild survives writing the store out and reading
/// it back: every added service is in the guild's list read back, and so
/// is everything that was allowed before.
pub proof fn lemma_saved_adds_keep_all(
    before: Map<u64, Seq<Seq<char>>>,
    after: &ServersCfg,
    tenant: u64,
    services: Seq<Seq<char>>,
)
    requires
        after.wf(),
        after@ == added_all(before, tenant, services),
    ensures
        store_of_document(document_of(after@, after.tenant_order())) matches Some(m) && {
            &&& forall|i: int|
                0 <= i < services.len() ==> allowed(m, tenant, #[trigger] services[i])
            &&& forall|t: u64, s: Seq<char>| allowed(before, t, s) ==> #[trigger] allowed(m, t, s)
        },
{
    lemma_document_round_trip(after);
    lemma_adds_keep_all(before, tenant, services);
}

} // verus!
