//! The loader side of the scan engine that is independent of any file
//! system: building a site's template store from file contents, and the
//! per-site cache. Reading directories and files is the host's job; it hands
//! the stems and contents in.

use vstd::prelude::*;
use crate::text::{to_chars, chars_to_string};
use crate::engine_normal::{SiteTemplates, TemplateEntry, template_key, template_key_chars, entry_view, store_view};

verus! {

/// One fragment file as read from disk: its stem (the file name without its
/// extension), its HTML text, and its sibling JSON text when one exists.
pub struct TemplateFile {
    pub stem: String,
    pub html: String,
    pub json: Option<String>,
}

/// The mathematical content of a fragment file.
pub open spec fn file_view(f: TemplateFile) -> (Seq<char>, Seq<char>, Option<Seq<char>>) {
    (
        f.stem@,
        f.html@,
        match f.json {
            Some(j) => Some(j@),
            None => None,
        },
    )
}

/// Loader for the scan engine: it builds and caches template stores.
pub struct LoaderNormal {
    pub cache: Vec<(String, SiteTemplates)>,
}

/// The index of the first cache entry with exactly this key.
pub open spec fn spec_cache_index<T>(s: Seq<(String, T)>, key: Seq<char>, i: int) -> Option<int>
    decreases s.len() - i,
{
    if i < 0 || i >= s.len() {
        None
    } else if s[i].0@ == key {
        Some(i)
    } else {
        spec_cache_index(s, key, i + 1)
    }
}

impl LoaderNormal {
    /// A loader with an empty cache.
    pub fn new() -> (r: LoaderNormal)
        ensures
            r.cache@.len() == 0,
    {
        LoaderNormal { cache: Vec::new() }
    }

    /// The store cached under a key.
    pub fn cache_lookup(&self, key: &str) -> (r: Option<&SiteTemplates>)
        ensures
            match r {
                Some(t) => spec_cache_index(self.cache@, key@, 0) matches Some(i) && *t
                    == self.cache@[i].1,
                None => spec_cache_index(self.cache@, key@, 0) is None,
            },
    {
        self.cache_lookup_from(key, 0)
    }

    fn cache_lookup_from(&self, key: &str, i: usize) -> (r: Option<&SiteTemplates>)
        requires
            i <= self.cache@.len(),
        ensures
            match r {
                Some(t) => spec_cache_index(self.cache@, key@, i as int) matches Some(j) && *t
                    == self.cache@[j].1,
                None => spec_cache_index(self.cache@, key@, i as int) is None,
            },
        decreases self.cache@.len() - i,
    {
        if i >= self.cache.len() {
            return None;
        }
        let ek = to_chars(self.cache[i].0.as_str());
        let kv = to_chars(key);
        if crate::template_utils::chars_eq(&ek, &kv) {
            Some(&self.cache[i].1)
        } else {
            self.cache_lookup_from(key, i + 1)
        }
    }

    /// Cache a store under a key, appending it to the cache.
    pub fn cache_store(&mut self, key: String, templates: SiteTemplates)
        ensures
            final(self).cache@ == old(self).cache@.push((key, templates)),
    {
        self.cache.push((key, templates));
    }

    /// Forget every cached store.
    pub fn clear_cache(&mut self)
        ensures
            final(self).cache@.len() == 0,
    {
        self.cache.clear();
    }

    /// The template store of a site: each file is indexed under the key
    /// built from the lower-cased site name and its lower-cased stem, in the
    /// order the files are given.
    pub fn build_site_templates(app_site: &str, files: &Vec<TemplateFile>) -> (r: SiteTemplates)
        ensures
            r.entries@.len() == files@.len(),
            forall|i: int|
                0 <= i < files@.len() ==> store_view(r.entries@)[i] == (
                template_key(app_site@, files@[i].stem@),
                files@[i].html@,
                match files@[i].json {
                    Some(j) => Some(j@),
                    None => None,
                },
                ),
    {
        let site = to_chars(app_site);
        let mut entries: Vec<TemplateEntry> = Vec::new();
        let mut i: usize = 0;
        while i < files.len()
            invariant
                i <= files@.len(),
                entries@.len() == i as int,
                site@ == app_site@,
                forall|k: int|
                    0 <= k < i ==> store_view(entries@)[k] == (
                    template_key(app_site@, files@[k].stem@),
                    files@[k].html@,
                    match files@[k].json {
                        Some(j) => Some(j@),
                        None => None,
                    },
                    ),
            decreases files@.len() - i,
        {
            let f = &files[i];
            let stem = to_chars(f.stem.as_str());
            let keyv = template_key_chars(&site, &stem);
            let json = match &f.json {
                Some(j) => Some(j.clone()),
                None => None,
            };
            let ghost old_entries = entries@;
            entries.push(
                TemplateEntry { key: chars_to_string(&keyv), html: f.html.clone(), json },
            );
            proof {
                assert forall|k: int| 0 <= k < i + 1 implies store_view(entries@)[k] == (
                    template_key(app_site@, files@[k].stem@),
                    files@[k].html@,
                    match files@[k].json {
                        Some(j) => Some(j@),
                        None => None,
                    },
                ) by {
                    assert(store_view(entries@)[k] == entry_view(entries@[k]));
                    if k < i {
                        assert(entries@[k] == old_entries[k]);
                        assert(store_view(old_entries)[k] == entry_view(old_entries[k]));
                    }
                }
            }
            i = i + 1;
        }
        SiteTemplates { entries }
    }
}

} // verus!
