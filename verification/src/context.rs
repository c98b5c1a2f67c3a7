//! What a plugin hands back while it handles an event: tags for resources,
//! and links to the files of resources.

use std::collections::HashMap;
use vstd::prelude::*;

verus! {

broadcast use vstd::std_specs::hash::group_hash_axioms;

/// The lists held in a map, as sequences.
pub open spec fn lists<V>(m: Map<u64, Vec<V>>) -> Map<u64, Seq<V>> {
    m.map_values(|v: Vec<V>| v@)
}

/// The list held under `k` (empty where there is none).
pub open spec fn list_at<V>(m: Map<u64, Vec<V>>, k: u64) -> Seq<V> {
    if m.contains_key(k) {
        m[k]@
    } else {
        Seq::empty()
    }
}

/// Takes the list under `k` out of `m` (an empty one where there is none).
fn take_list<V>(m: &mut HashMap<u64, Vec<V>>, k: u64) -> (r: Vec<V>)
    ensures
        r@ == list_at(old(m)@, k),
        final(m)@ == old(m)@.remove(k),
{
    match m.remove(&k) {
        Some(v) => v,
        None => Vec::new(),
    }
}

/// Tags that a plugin attaches to resources, as `(key, value)` labels per
/// resource id.
#[derive(Default)]
pub struct TagContext {
    pub tag_temp: HashMap<u64, Vec<(String, String)>>,
}

impl TagContext {
    /// Adds `label` to resource `rid`.
    pub fn add_tag(&mut self, rid: u64, label: (String, String))
        ensures
            lists(final(self).tag_temp@) == lists(old(self).tag_temp@).insert(
                rid,
                list_at(old(self).tag_temp@, rid).push(label),
            ),
    {
        let ghost before = self.tag_temp@;
        let mut list = take_list(&mut self.tag_temp, rid);
        list.push(label);
        self.tag_temp.insert(rid, list);
        assert(lists(self.tag_temp@) =~= lists(before).insert(rid, list_at(before, rid).push(label)));
    }

    /// Adds `labels`, in order, to resource `rid`.
    pub fn add_tags(&mut self, rid: u64, labels: Vec<(String, String)>)
        ensures
            lists(final(self).tag_temp@) == lists(old(self).tag_temp@).insert(
                rid,
                list_at(old(self).tag_temp@, rid) + labels@,
            ),
    {
        let ghost before = self.tag_temp@;
        let mut list = take_list(&mut self.tag_temp, rid);
        let mut labels = labels;
        let ghost all = labels@;
        list.append(&mut labels);
        self.tag_temp.insert(rid, list);
        assert(lists(self.tag_temp@) =~= lists(before).insert(rid, list_at(before, rid) + all));
    }

    /// Removes every tag of resource `tid`.
    pub fn delete_tag(&mut self, tid: u64)
        ensures
            lists(final(self).tag_temp@) == lists(old(self).tag_temp@).remove(tid),
    {
        let ghost before = self.tag_temp@;
        self.tag_temp.remove(&tid);
        assert(lists(self.tag_temp@) =~= lists(before).remove(tid));
    }
}


#[verifier::external_type_specification]
#[verifier::external_body]
pub struct ExUrl(url::Url);

/// What `url::Url::parse` makes of `input`: success, or the text of its
/// error.
pub uninterp spec fn url_parse_outcome(input: Seq<char>) -> Result<(), Seq<char>>;

/// The text (`Url::as_str`) of the URL that `url::Url::parse` makes of
/// `input`.
pub uninterp spec fn url_serialization(input: Seq<char>) -> Seq<char>;

/// `url::Url::parse`, with the URL's text (`as_str`) beside it and the
/// error given as its `Display` text. Whether it succeeds, the error text
/// and the URL's text depend on `input` alone and are named by
/// `url_parse_outcome` and `url_serialization`; nothing more is stated of
/// the URL value itself.
#[verifier::external_body]
fn parse_url(input: &str) -> (r: Result<(url::Url, String), String>)
    ensures
        match r {
            Ok((_, t)) => url_parse_outcome(input@) is Ok && t@ == url_serialization(input@),
            Err(m) => url_parse_outcome(input@) == Err::<(), Seq<char>>(m@),
        },
{
    match url::Url::parse(input) {
        Ok(u) => {
            let t = u.as_str().to_owned();
            Ok((u, t))
        },
        Err(e) => Err(e.to_string()),
    }
}

/// Why a link could not be recorded.
#[derive(Debug)]
pub enum PathMappingHandleError {
    /// The link is not a valid URL; the text says why.
    InvalidFormat(String),
}

/// The fields a link can be recorded under.
pub open spec fn mapped_field(field: Seq<char>) -> bool {
    field == "cover_file_map_id"@ || field == "data_file_map_id"@
}

/// Links that a plugin attaches to resources, as `(field, url, url text)`
/// entries per resource id.
#[derive(Default)]
pub struct PathMappingContext {
    pub path_mapping_temp: HashMap<u64, Vec<(String, url::Url, String)>>,
}

impl PathMappingContext {
    /// Records the outcome of parsing a link for `field` of resource `id`:
    /// a parsed URL (with its text) is kept when the field is
    /// `cover_file_map_id` or `data_file_map_id` (and accepted but dropped
    /// otherwise); a parse error is returned.
    pub fn push_parsed(
        &mut self,
        id: u64,
        field: String,
        parsed: Result<(url::Url, String), String>,
    ) -> (r: Result<(), PathMappingHandleError>)
        ensures
            match parsed {
                Ok((u, t)) => {
                    &&& r is Ok
                    &&& mapped_field(field@) ==> lists(final(self).path_mapping_temp@) == lists(
                        old(self).path_mapping_temp@,
                    ).insert(id, list_at(old(self).path_mapping_temp@, id).push((field, u, t)))
                    &&& !mapped_field(field@) ==> final(self).path_mapping_temp@ == old(
                        self,
                    ).path_mapping_temp@
                },
                Err(m) => {
                    &&& r matches Err(PathMappingHandleError::InvalidFormat(t)) && t == m
                    &&& final(self).path_mapping_temp@ == old(self).path_mapping_temp@
                },
            },
    {
        match parsed {
            Ok((u, t)) => {
                let cover = "cover_file_map_id".to_owned();
                let data = "data_file_map_id".to_owned();
                if field == cover || field == data {
                    let ghost before = self.path_mapping_temp@;
                    let ghost entry = (field, u, t);
                    let mut list = take_list(&mut self.path_mapping_temp, id);
                    list.push((field, u, t));
                    self.path_mapping_temp.insert(id, list);
                    assert(lists(self.path_mapping_temp@) =~= lists(before).insert(
                        id,
                        list_at(before, id).push(entry),
                    ));
                }
                Ok(())
            },
            Err(m) => Err(PathMappingHandleError::InvalidFormat(m)),
        }
    }

    /// Parses `link` and records it for `field` of resource `id`, with the
    /// parsed URL's text (see `push_parsed`).
    pub fn push(&mut self, id: u64, field: String, link: String) -> (r: Result<
        (),
        PathMappingHandleError,
    >)
        ensures
            r is Ok <==> url_parse_outcome(link@) is Ok,
            r matches Err(PathMappingHandleError::InvalidFormat(t)) ==> url_parse_outcome(link@)
                == Err::<(), Seq<char>>(t@),
            !mapped_field(field@) || r is Err ==> final(self).path_mapping_temp@ == old(
                self,
            ).path_mapping_temp@,
            mapped_field(field@) && r is Ok ==> exists|u: url::Url, t: String|
                t@ == url_serialization(link@) && lists(final(self).path_mapping_temp@) == lists(
                    old(self).path_mapping_temp@,
                ).insert(id, list_at(old(self).path_mapping_temp@, id).push((field, u, t))),
    {
        let parsed = parse_url(link.as_str());
        self.push_parsed(id, field, parsed)
    }
}

} // verus!
