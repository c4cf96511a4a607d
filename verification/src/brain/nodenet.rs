use vstd::prelude::*;

use crate::collections::StrMap;
use crate::text::{append_decimal, decimal_seq, normalize_key, normalize_key_seq};

verus! {

/// Where content came from and on what terms it may be used.
#[derive(Debug, Clone, PartialEq, Eq)]
pub struct ContentProvenance {
    pub source_id: Option<String>,
    pub source_uri: Option<String>,
    pub owner_controller: Option<String>,
    pub license: Option<String>,
    pub usage_rights: Option<String>,
    pub lawful_basis: Option<String>,
    pub purpose: Option<String>,
    pub retention_policy: Option<String>,
    pub collected_at_utc: Option<String>,
    pub collector: Option<String>,
    pub jurisdiction: Option<String>,
    pub content_hash: Option<String>,
    pub transformation_lineage: Vec<String>,
}

pub open spec fn opt_view(o: Option<String>) -> Option<Seq<char>> {
    match o {
        Some(s) => Some(s@),
        None => None,
    }
}

pub open spec fn opt_str_view(o: Option<&str>) -> Option<Seq<char>> {
    match o {
        Some(s) => Some(s@),
        None => None,
    }
}

fn opt_to_string(o: Option<&str>) -> (r: Option<String>)
    ensures
        opt_view(r) == opt_str_view(o),
{
    match o {
        Some(s) => Some(s.to_string()),
        None => None,
    }
}

impl ContentProvenance {
    /// A source (id or URI), an owner, and usage terms (license or rights) are all present.
    pub open spec fn spec_has_minimum_attribution(&self) -> bool {
        (self.source_id is Some || self.source_uri is Some) && self.owner_controller is Some && (
        self.license is Some || self.usage_rights is Some)
    }

    pub fn has_minimum_attribution(&self) -> (r: bool)
        ensures
            r == self.spec_has_minimum_attribution(),
    {
        (self.source_id.is_some() || self.source_uri.is_some()) && self.owner_controller.is_some()
            && (self.license.is_some() || self.usage_rights.is_some())
    }

    pub open spec fn is_empty_provenance(&self) -> bool {
        &&& self.source_id is None
        &&& self.source_uri is None
        &&& self.owner_controller is None
        &&& self.license is None
        &&& self.usage_rights is None
        &&& self.lawful_basis is None
        &&& self.purpose is None
        &&& self.retention_policy is None
        &&& self.collected_at_utc is None
        &&& self.collector is None
        &&& self.jurisdiction is None
        &&& self.content_hash is None
        &&& self.transformation_lineage@.len() == 0
    }
}

impl Default for ContentProvenance {
    fn default() -> (r: Self)
        ensures
            r.is_empty_provenance(),
    {
        Self {
            source_id: None,
            source_uri: None,
            owner_controller: None,
            license: None,
            usage_rights: None,
            lawful_basis: None,
            purpose: None,
            retention_policy: None,
            collected_at_utc: None,
            collector: None,
            jurisdiction: None,
            content_hash: None,
            transformation_lineage: Vec::new(),
        }
    }
}

/// Attributes of a node, keyed case-insensitively, and the provenance of its content.
#[derive(Debug, Clone)]
pub struct NodeMetadata {
    pub attributes: StrMap<String>,
    pub provenance: Option<ContentProvenance>,
}

/// The provenance that a builder starts from: the present one, or an empty one.
pub open spec fn base_provenance(p: Option<ContentProvenance>, q: ContentProvenance) -> bool {
    match p {
        Some(old) => q == old,
        None => q.is_empty_provenance(),
    }
}

impl NodeMetadata {
    /// The attribute stored under a normalized key, as text.
    pub open spec fn attribute(&self, k: Seq<char>) -> Option<Seq<char>> {
        match self.attributes.spec_get(k) {
            Some(v) => Some(v@),
            None => None,
        }
    }

    pub fn new() -> (r: Self)
        ensures
            forall|k: Seq<char>| #[trigger] r.attribute(k) is None,
            r.attributes.entries_view().len() == 0,
            r.provenance is None,
    {
        Self { attributes: StrMap::new(), provenance: None }
    }

    /// Metadata holding only the language attribute.
    pub fn with_lang(language: &str) -> (r: Self)
        ensures
            forall|k: Seq<char>|
                #[trigger] r.attribute(k) == if k == "lang"@ {
                    Some(language@)
                } else {
                    None::<Seq<char>>
                },
            r.attributes.entries_view().len() == 1,
            r.provenance is None,
    {
        let mut metadata = Self::new();
        metadata.set("lang", language);
        proof {
            reveal_strlit("lang");
            crate::text::lemma_normalize_key_identity("lang"@);
        }
        metadata
    }

    /// Stores `value` under the trimmed, lower-cased key.
    pub fn set(&mut self, key: &str, value: &str)
        ensures
            forall|k: Seq<char>|
                #[trigger] final(self).attribute(k) == if k == normalize_key_seq(key@) {
                    Some(value@)
                } else {
                    old(self).attribute(k)
                },
            old(self).attribute(normalize_key_seq(key@)) is Some ==> final(self).attributes.entries_view().len()
                == old(self).attributes.entries_view().len(),
            old(self).attribute(normalize_key_seq(key@)) is None ==> final(self).attributes.entries_view().len()
                == old(self).attributes.entries_view().len() + 1,
            final(self).provenance == old(self).provenance,
    {
        let k = normalize_key(key);
        proof {
            crate::collections::lemma_lookup_index_agree(self.attributes.entries_view(), k@);
        }
        let v = value.to_string();
        self.attributes.insert(k, v);
    }

    /// The value stored under the trimmed, lower-cased key.
    pub fn get(&self, key: &str) -> (r: Option<&str>)
        ensures
            opt_str_view(r) == self.attribute(normalize_key_seq(key@)),
    {
        let k = normalize_key(key);
        match self.attributes.get(k.as_str()) {
            Some(v) => Some(v.as_str()),
            None => None,
        }
    }

    pub fn set_provenance(&mut self, provenance: ContentProvenance)
        ensures
            final(self).provenance == Some(provenance),
            final(self).attributes == old(self).attributes,
    {
        self.provenance = Some(provenance);
    }

    pub fn provenance(&self) -> (r: Option<&ContentProvenance>)
        ensures
            match r {
                Some(p) => self.provenance == Some(*p),
                None => self.provenance is None,
            },
    {
        match &self.provenance {
            Some(p) => Some(p),
            None => None,
        }
    }

    /// The provenance is present and has the minimum attribution.
    pub fn has_minimum_provenance_for_review(&self) -> (r: bool)
        ensures
            r == (self.provenance matches Some(p) && p.spec_has_minimum_attribution()),
    {
        match &self.provenance {
            Some(p) => p.has_minimum_attribution(),
            None => false,
        }
    }

    /// Sets the source and owner of the provenance, keeping its other fields.
    pub fn with_source_owner(
        self,
        source_id: Option<&str>,
        source_uri: Option<&str>,
        owner_controller: &str,
    ) -> (r: Self)
        ensures
            r.attributes == self.attributes,
            r.provenance matches Some(p) && exists|q: ContentProvenance|
                base_provenance(self.provenance, q) && p == (ContentProvenance {
                    source_id: p.source_id,
                    source_uri: p.source_uri,
                    owner_controller: p.owner_controller,
                    ..q
                }),
            r.provenance matches Some(p) && opt_view(p.source_id) == opt_str_view(source_id)
                && opt_view(p.source_uri) == opt_str_view(source_uri) && opt_view(
                p.owner_controller,
            ) == Some(owner_controller@),
    {
        let mut metadata = self;
        let mut provenance = match metadata.provenance.take() {
            Some(p) => p,
            None => ContentProvenance::default(),
        };
        let ghost q = provenance;
        provenance.source_id = opt_to_string(source_id);
        provenance.source_uri = opt_to_string(source_uri);
        provenance.owner_controller = Some(owner_controller.to_string());
        assert(base_provenance(self.provenance, q) && provenance == (ContentProvenance {
            source_id: provenance.source_id,
            source_uri: provenance.source_uri,
            owner_controller: provenance.owner_controller,
            ..q
        }));
        metadata.provenance = Some(provenance);
        metadata
    }

    /// Sets the license, usage rights and lawful basis of the provenance, keeping its other fields.
    pub fn with_usage_terms(
        self,
        license: Option<&str>,
        usage_rights: Option<&str>,
        lawful_basis: Option<&str>,
    ) -> (r: Self)
        ensures
            r.attributes == self.attributes,
            r.provenance matches Some(p) && exists|q: ContentProvenance|
                base_provenance(self.provenance, q) && p == (ContentProvenance {
                    license: p.license,
                    usage_rights: p.usage_rights,
                    lawful_basis: p.lawful_basis,
                    ..q
                }),
            r.provenance matches Some(p) && opt_view(p.license) == opt_str_view(license) && opt_view(
                p.usage_rights,
            ) == opt_str_view(usage_rights) && opt_view(p.lawful_basis) == opt_str_view(
                lawful_basis,
            ),
    {
        let mut metadata = self;
        let mut provenance = match metadata.provenance.take() {
            Some(p) => p,
            None => ContentProvenance::default(),
        };
        let ghost q = provenance;
        provenance.license = opt_to_string(license);
        provenance.usage_rights = opt_to_string(usage_rights);
        provenance.lawful_basis = opt_to_string(lawful_basis);
        assert(base_provenance(self.provenance, q) && provenance == (ContentProvenance {
            license: provenance.license,
            usage_rights: provenance.usage_rights,
            lawful_basis: provenance.lawful_basis,
            ..q
        }));
        metadata.provenance = Some(provenance);
        metadata
    }

    /// Records a transformation step at the end of the provenance lineage.
    pub fn push_transformation_step(&mut self, step: &str)
        ensures
            final(self).attributes == old(self).attributes,
            final(self).provenance matches Some(p) && exists|q: ContentProvenance|
                base_provenance(old(self).provenance, q) && p == (ContentProvenance {
                    transformation_lineage: p.transformation_lineage,
                    ..q
                }) && p.transformation_lineage@.len() == q.transformation_lineage@.len() + 1
                && p.transformation_lineage@.take(q.transformation_lineage@.len() as int)
                == q.transformation_lineage@ && p.transformation_lineage@.last()@ == step@,
    {
        let mut provenance = match self.provenance.take() {
            Some(p) => p,
            None => ContentProvenance::default(),
        };
        let ghost q = provenance;
        provenance.transformation_lineage.push(step.to_string());
        assert(provenance.transformation_lineage@.take(q.transformation_lineage@.len() as int)
            =~= q.transformation_lineage@);
        assert(base_provenance(old(self).provenance, q) && provenance == (ContentProvenance {
            transformation_lineage: provenance.transformation_lineage,
            ..q
        }));
        self.provenance = Some(provenance);
    }
}

impl Default for NodeMetadata {
    fn default() -> (r: Self)
        ensures
            forall|k: Seq<char>| #[trigger] r.attribute(k) is None,
            r.provenance is None,
    {
        Self::new()
    }
}

/// The content of a node.
#[derive(Debug, Clone, PartialEq, Eq)]
pub enum NodePayload {
    Text(String),
    ImageBytes(Vec<u8>),
    FeatureTokens { modality: String, tokens: Vec<String> },
}

/// What a payload displays: the text itself, or a summary of bytes or tokens.
pub open spec fn payload_display_text(p: NodePayload) -> Seq<char> {
    match p {
        NodePayload::Text(t) => t@,
        NodePayload::ImageBytes(b) => "<image_bytes:"@ + decimal_seq(b@.len()) + ">"@,
        NodePayload::FeatureTokens { modality, tokens } => "<feature_tokens:"@ + modality@ + ":"@
            + decimal_seq(tokens@.len()) + ">"@,
    }
}

impl NodePayload {
    pub fn text(value: &str) -> (r: Self)
        ensures
            r matches NodePayload::Text(t) && t@ == value@,
    {
        NodePayload::Text(value.to_string())
    }

    /// The text of a text payload.
    pub fn as_text(&self) -> (r: Option<&str>)
        ensures
            match self {
                NodePayload::Text(t) => r matches Some(s) && s@ == t@,
                _ => r is None,
            },
    {
        match self {
            NodePayload::Text(value) => Some(value.as_str()),
            _ => None,
        }
    }

    /// The text of a text payload, or the empty text.
    pub fn as_str(&self) -> (r: &str)
        ensures
            match self {
                NodePayload::Text(t) => r@ == t@,
                _ => r@.len() == 0,
            },
    {
        match self.as_text() {
            Some(s) => s,
            None => {
                proof {
                    reveal_strlit("");
                }
                ""
            },
        }
    }

    /// Whether this is a text payload equal to `other`.
    pub fn eq_text(&self, other: &str) -> (r: bool)
        ensures
            r == (self matches NodePayload::Text(t) && t@ == other@),
    {
        match self {
            NodePayload::Text(value) => *value == other.to_string(),
            _ => false,
        }
    }

    /// The text this payload displays.
    pub fn display_string(&self) -> (r: String)
        ensures
            r@ == payload_display_text(*self),
    {
        match self {
            NodePayload::Text(value) => value.clone(),
            NodePayload::ImageBytes(bytes) => {
                let mut out = "<image_bytes:".to_string();
                append_decimal(&mut out, bytes.len() as u64);
                out.append(">");
                out
            },
            NodePayload::FeatureTokens { modality, tokens } => {
                let mut out = "<feature_tokens:".to_string();
                out.append(modality.as_str());
                out.append(":");
                append_decimal(&mut out, tokens.len() as u64);
                out.append(">");
                out
            },
        }
    }
}

impl Default for NodePayload {
    fn default() -> (r: Self)
        ensures
            r matches NodePayload::Text(t) && t@.len() == 0,
    {
        NodePayload::Text(String::new())
    }
}

/// How a network groups token keys into clusters.
pub trait TokenClusterKeyStrategy {
    /// The cluster of a token key, if it belongs to one.
    fn cluster_key_for_token(&self, token_key: &str) -> Option<String>;
}

} // verus!
