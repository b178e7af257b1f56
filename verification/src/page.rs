//! Pages and their cache keys.
//!
//! A page is fetched once and then served from a per-domain disk cache.
//! The cache key of a URL is its registrable domain together with a
//! percent-encoded copy of the whole URL string; the two cache files are
//! `data/<domain>/<encoded>.metadata.json` and
//! `data/<domain>/<encoded>.content.html`. This module derives the key
//! and builds pages from a live response or from the two cached parts;
//! reading and writing the files, and the fetch itself, are the caller's
//! business.

use crate::encode::encode_text;
use crate::encode::encode_url;
use crate::json::emit_meta;
use crate::json::meta_to_json;
use crate::json::meta_wf;
use crate::json::opt_view;
use crate::json::parse_meta;
use crate::json::parse_metadata;
use crate::json::lemma_meta_round_trip;
use crate::json::MetaSpec;
use vstd::prelude::*;
use vstd::string::StringExecFns;

verus! {

/// The URL's host has no registrable domain (or the URL has no host).
#[derive(Debug, PartialEq, Eq)]
pub struct DomainError;

/// Names the result of `psl::domain_str` on a host name: the
/// registrable domain under the public suffix list compiled into the
/// `psl` crate, or nothing where the host has none.
pub uninterp spec fn registrable_domain(host: Seq<char>) -> Option<Seq<char>>;

/// Relies on `psl::domain_str`: the registrable domain of a host name,
/// a pure lookup against the crate's compiled public-suffix list.
#[verifier::external_body]
pub fn domain(host: &str) -> (r: Option<String>)
    ensures
        match r {
            Some(d) => registrable_domain(host@) == Some(d@),
            None => registrable_domain(host@) is None,
        },
{
    psl::domain_str(host).map(|d| d.to_string())
}

/// Byte length of a text in its UTF-8 encoding.
pub open spec fn byte_len(s: Seq<char>) -> nat {
    vstd::utf8::encode_utf8(s).len()
}

/// Path of the metadata file for a cache key.
pub open spec fn metadata_path_text(domain: Seq<char>, encoded_url: Seq<char>) -> Seq<char> {
    "data/"@ + domain + "/"@ + encoded_url + ".metadata.json"@
}

/// Path of the body file for a cache key.
pub open spec fn content_path_text(domain: Seq<char>, encoded_url: Seq<char>) -> Seq<char> {
    "data/"@ + domain + "/"@ + encoded_url + ".content.html"@
}

fn joined(domain: &str, encoded_url: &str, suffix: &str) -> (r: String)
    ensures
        r@ == "data/"@ + domain@ + "/"@ + encoded_url@ + suffix@,
{
    let mut out = String::from_str("data/");
    out.append(domain);
    out.append("/");
    out.append(encoded_url);
    out.append(suffix);
    out
}

/// The deterministic cache location of one URL.
#[derive(Debug)]
pub struct CacheKey {
    pub domain: String,
    pub encoded_url: String,
    pub metadata_path: String,
    pub content_path: String,
}

/// Derives the cache key of a URL: its registrable domain and the two
/// file paths under `data/`. Fails with [`DomainError`] exactly when the
/// URL has no host or the host has no registrable domain; no other
/// failure exists, and nothing is fetched or read here.
pub fn cache_key(url: &str, host: Option<&str>) -> (r: Result<CacheKey, DomainError>)
    ensures
        match r {
            Ok(k) => {
                &&& match host {
                    Some(h) => registrable_domain(h@) == Some(k.domain@),
                    None => false,
                }
                &&& k.encoded_url@ == encode_text(url@)
                &&& k.metadata_path@ == metadata_path_text(k.domain@, k.encoded_url@)
                &&& k.content_path@ == content_path_text(k.domain@, k.encoded_url@)
            },
            Err(_) => match host {
                Some(h) => registrable_domain(h@) is None,
                None => true,
            },
        },
{
    let h = match host {
        Some(h) => h,
        None => {
            return Err(DomainError);
        },
    };
    let d = match domain(h) {
        Some(d) => d,
        None => {
            return Err(DomainError);
        },
    };
    let encoded = encode_url(url);
    let metadata_path = joined(d.as_str(), encoded.as_str(), ".metadata.json");
    let content_path = joined(d.as_str(), encoded.as_str(), ".content.html");
    Ok(CacheKey { domain: d, encoded_url: encoded, metadata_path, content_path })
}

/// A fetched or cache-loaded HTTP resource.
#[derive(Debug)]
pub struct Page {
    pub url: String,
    pub domain: String,
    pub status: u16,
    pub content_type: Option<String>,
    pub etag: Option<String>,
    pub last_modified: Option<String>,
    pub len: usize,
    pub content: String,
}

impl Page {
    /// The page's metadata record: every field but the body.
    pub open spec fn meta(&self) -> MetaSpec {
        MetaSpec {
            url: self.url@,
            domain: self.domain@,
            status: self.status as int,
            content_type: opt_view(self.content_type),
            etag: opt_view(self.etag),
            last_modified: opt_view(self.last_modified),
            len: self.len as int,
        }
    }

    /// A page carries a three-digit status code; its length always fits
    /// a `usize`.
    pub open spec fn wf(&self) -> bool {
        meta_wf(self.meta())
    }

    /// Assembles a page from the parts of a live response. `len` is the
    /// byte length of the body as fetched.
    pub fn from_fetch(
        url: String,
        domain: String,
        status: u16,
        content_type: Option<String>,
        etag: Option<String>,
        last_modified: Option<String>,
        content: String,
    ) -> (p: Page)
        requires
            100 <= status <= 999,
        ensures
            p.url == url,
            p.domain == domain,
            p.status == status,
            p.content_type == content_type,
            p.etag == etag,
            p.last_modified == last_modified,
            p.content == content,
            p.len == byte_len(content@) as usize,
            p.wf(),
    {
        let len = content.as_str().len();
        Page { url, domain, status, content_type, etag, last_modified, len, content }
    }

    /// Rebuilds a page from its two cached parts: the metadata record
    /// and the body file's text. Returns nothing exactly when the
    /// metadata does not parse; the body is taken as it stands, without
    /// checking it against the recorded length.
    pub fn from_cache_parts(metadata_text: &str, content: String) -> (r: Option<Page>)
        ensures
            match r {
                Some(p) => {
                    &&& parse_meta(metadata_text@) == Some(p.meta())
                    &&& p.content == content
                    &&& p.wf()
                },
                None => parse_meta(metadata_text@) is None,
            },
    {
        match parse_metadata(metadata_text) {
            Some(md) => {
                let p = Page {
                    url: md.url,
                    domain: md.domain,
                    status: md.status,
                    content_type: md.content_type,
                    etag: md.etag,
                    last_modified: md.last_modified,
                    len: md.len,
                    content,
                };
                Some(p)
            },
            None => None,
        }
    }

    /// Serializes the page's metadata record to its canonical JSON form.
    /// The body is not part of the record; it is stored as a sibling
    /// file.
    pub fn metadata_json(&self) -> (r: String)
        ensures
            r@ == emit_meta(self.meta()),
    {
        meta_to_json(
            self.url.as_str(),
            self.domain.as_str(),
            self.status,
            &self.content_type,
            &self.etag,
            &self.last_modified,
            self.len,
        )
    }
}

/// Law: a page written to cache and read back is the same page — its
/// serialized metadata parses back to the identical record, so a cache
/// hit returns every field as originally fetched, with the body taken
/// from the body file.
pub proof fn lemma_page_round_trip(p: Page)
    requires
        p.wf(),
    ensures
        parse_meta(emit_meta(p.meta())) == Some(p.meta()),
{
    lemma_meta_round_trip(p.meta());
}

/// Law: a cache hit is faithful, field for field. Where the cached
/// record text is the serialization of page `p`, the cached body is
/// `p`'s body, and `q` is a page rebuilt from those two parts (so its
/// record is what the text parses to), `q` carries exactly `p`'s fields,
/// with its body read back from disk rather than from the response.
pub proof fn lemma_cache_hit_faithful(p: Page, q: Page)
    requires
        p.wf(),
        parse_meta(emit_meta(p.meta())) == Some(q.meta()),
        q.content == p.content,
    ensures
        q.meta() == p.meta(),
        q.url@ == p.url@,
        q.domain@ == p.domain@,
        q.status == p.status,
        opt_view(q.content_type) == opt_view(p.content_type),
        opt_view(q.etag) == opt_view(p.etag),
        opt_view(q.last_modified) == opt_view(p.last_modified),
        q.len == p.len,
        q.content == p.content,
{
    lemma_meta_round_trip(p.meta());
}

} // verus!
