//! The preprocessed data model: what the preprocessor extracts from each
//! fragment, and the flat replacement mappings the preprocess engine applies.

use vstd::prelude::*;
use crate::json::JsonObject;

verus! {

/// A simple-reference occurrence in a fragment.
pub struct TemplatePlaceholder {
    pub name: String,
    pub start_index: usize,
    pub end_index: usize,
    pub full_match: String,
    pub template_key: String,
}

/// The mathematical content of a placeholder occurrence.
pub ghost struct PlaceholderV {
    pub name: Seq<char>,
    pub start_index: int,
    pub end_index: int,
    pub full_match: Seq<char>,
    pub template_key: Seq<char>,
}

impl View for TemplatePlaceholder {
    type V = PlaceholderV;

    open spec fn view(&self) -> PlaceholderV {
        PlaceholderV {
            name: self.name@,
            start_index: self.start_index as int,
            end_index: self.end_index as int,
            full_match: self.full_match@,
            template_key: self.template_key@,
        }
    }
}

/// A slot inside a slotted reference: its number (possibly empty), its range,
/// its raw content, and the spellings of its key and tags.
pub struct SlotPlaceholder {
    pub number: String,
    pub start_index: usize,
    pub end_index: usize,
    pub content: String,
    pub slot_key: String,
    pub open_tag: String,
    pub close_tag: String,
}

/// The mathematical content of a slot.
pub ghost struct SlotV {
    pub number: Seq<char>,
    pub start_index: int,
    pub end_index: int,
    pub content: Seq<char>,
    pub slot_key: Seq<char>,
    pub open_tag: Seq<char>,
    pub close_tag: Seq<char>,
}

impl View for SlotPlaceholder {
    type V = SlotV;

    open spec fn view(&self) -> SlotV {
        SlotV {
            number: self.number@,
            start_index: self.start_index as int,
            end_index: self.end_index as int,
            content: self.content@,
            slot_key: self.slot_key@,
            open_tag: self.open_tag@,
            close_tag: self.close_tag@,
        }
    }
}

/// A slotted-reference occurrence in a fragment.
pub struct SlottedTemplate {
    pub name: String,
    pub start_index: usize,
    pub end_index: usize,
    pub full_match: String,
    pub inner_content: String,
    pub slots: Vec<SlotPlaceholder>,
    pub template_key: String,
}

/// The mathematical content of a slotted-reference occurrence.
pub ghost struct SlottedV {
    pub name: Seq<char>,
    pub start_index: int,
    pub end_index: int,
    pub full_match: Seq<char>,
    pub inner_content: Seq<char>,
    pub slots: Seq<SlotV>,
    pub template_key: Seq<char>,
}

impl View for SlottedTemplate {
    type V = SlottedV;

    open spec fn view(&self) -> SlottedV {
        SlottedV {
            name: self.name@,
            start_index: self.start_index as int,
            end_index: self.end_index as int,
            full_match: self.full_match@,
            inner_content: self.inner_content@,
            slots: self.slots@.map(|i: int, s: SlotPlaceholder| s@),
            template_key: self.template_key@,
        }
    }
}

/// A scalar binding a fragment's JSON provides for the executor's residual
/// case-insensitive pass.
pub struct JsonPlaceholder {
    pub key: String,
    pub placeholder: String,
    pub value: String,
}

/// The mathematical content of a scalar binding.
pub ghost struct JsonPlaceholderV {
    pub key: Seq<char>,
    pub placeholder: Seq<char>,
    pub value: Seq<char>,
}

impl View for JsonPlaceholder {
    type V = JsonPlaceholderV;

    open spec fn view(&self) -> JsonPlaceholderV {
        JsonPlaceholderV { key: self.key@, placeholder: self.placeholder@, value: self.value@ }
    }
}

/// What kind of construct a replacement mapping resolves.
pub enum ReplacementType {
    JsonPlaceholder,
    SimpleTemplate,
    SlottedTemplate,
}

/// The kinds compared as values.
pub open spec fn same_kind(a: ReplacementType, b: ReplacementType) -> bool {
    match (a, b) {
        (ReplacementType::JsonPlaceholder, ReplacementType::JsonPlaceholder) => true,
        (ReplacementType::SimpleTemplate, ReplacementType::SimpleTemplate) => true,
        (ReplacementType::SlottedTemplate, ReplacementType::SlottedTemplate) => true,
        _ => false,
    }
}

/// One textual replacement the executor applies: every occurrence of
/// `original_text` becomes `replacement_text`.
pub struct ReplacementMapping {
    pub start_index: usize,
    pub end_index: usize,
    pub original_text: String,
    pub replacement_text: String,
    pub kind: ReplacementType,
}

/// The mathematical content of a mapping.
pub ghost struct MappingV {
    pub start_index: int,
    pub end_index: int,
    pub original_text: Seq<char>,
    pub replacement_text: Seq<char>,
    pub kind: ReplacementType,
}

impl View for ReplacementMapping {
    type V = MappingV;

    open spec fn view(&self) -> MappingV {
        MappingV {
            start_index: self.start_index as int,
            end_index: self.end_index as int,
            original_text: self.original_text@,
            replacement_text: self.replacement_text@,
            kind: self.kind,
        }
    }
}

/// One fragment as the preprocessor leaves it.
pub struct PreprocessedTemplate {
    pub original_content: String,
    pub placeholders: Vec<TemplatePlaceholder>,
    pub slotted_templates: Vec<SlottedTemplate>,
    pub json_data: Option<JsonObject>,
    pub json_placeholders: Vec<JsonPlaceholder>,
    pub replacement_mappings: Vec<ReplacementMapping>,
    pub has_placeholders_flag: bool,
    pub has_slotted_templates_flag: bool,
    pub has_json_data_flag: bool,
    pub has_json_placeholders_flag: bool,
    pub has_replacement_mappings_flag: bool,
    pub requires_processing_flag: bool,
}

/// The mathematical content of a preprocessed fragment.
pub ghost struct PreTemplateV {
    pub original_content: Seq<char>,
    pub placeholders: Seq<PlaceholderV>,
    pub slotted_templates: Seq<SlottedV>,
    pub json_data: Option<JsonObject>,
    pub json_placeholders: Seq<JsonPlaceholderV>,
    pub replacement_mappings: Seq<MappingV>,
}

impl View for PreprocessedTemplate {
    type V = PreTemplateV;

    open spec fn view(&self) -> PreTemplateV {
        PreTemplateV {
            original_content: self.original_content@,
            placeholders: self.placeholders@.map(|i: int, p: TemplatePlaceholder| p@),
            slotted_templates: self.slotted_templates@.map(|i: int, s: SlottedTemplate| s@),
            json_data: self.json_data,
            json_placeholders: self.json_placeholders@.map(|i: int, p: JsonPlaceholder| p@),
            replacement_mappings: self.replacement_mappings@.map(
                |i: int, m: ReplacementMapping| m@,
            ),
        }
    }
}

impl PreprocessedTemplate {
    /// Whether the fragment holds simple references.
    pub fn has_placeholders(&self) -> (r: bool)
        ensures
            r == (self.placeholders@.len() > 0),
    {
        self.placeholders.len() > 0
    }

    /// Whether the fragment holds slotted references.
    pub fn has_slotted_templates(&self) -> (r: bool)
        ensures
            r == (self.slotted_templates@.len() > 0),
    {
        self.slotted_templates.len() > 0
    }

    /// Whether the fragment carries a non-empty JSON object.
    pub fn has_json_data(&self) -> (r: bool)
        ensures
            r == match self.json_data {
                Some(o) => o.entries@.len() > 0,
                None => false,
            },
    {
        match &self.json_data {
            Some(o) => !o.is_empty(),
            None => false,
        }
    }

    /// Whether the fragment provides scalar bindings.
    pub fn has_json_placeholders(&self) -> (r: bool)
        ensures
            r == (self.json_placeholders@.len() > 0),
    {
        self.json_placeholders.len() > 0
    }

    /// Whether the fragment carries replacement mappings.
    pub fn has_replacement_mappings(&self) -> (r: bool)
        ensures
            r == (self.replacement_mappings@.len() > 0),
    {
        self.replacement_mappings.len() > 0
    }

    /// What `requires_processing` reports: any of the other properties.
    pub open spec fn spec_requires_processing(&self) -> bool {
        self.placeholders@.len() > 0 || self.slotted_templates@.len() > 0 || (
        match self.json_data {
            Some(o) => o.entries@.len() > 0,
            None => false,
        }) || self.json_placeholders@.len() > 0 || self.replacement_mappings@.len() > 0
    }

    /// Whether the executor has anything to do with this fragment.
    pub fn requires_processing(&self) -> (r: bool)
        ensures
            r == self.spec_requires_processing(),
    {
        self.has_placeholders() || self.has_slotted_templates() || self.has_json_data()
            || self.has_json_placeholders() || self.has_replacement_mappings()
    }

    /// Recompute the convenience flags from the current fields.
    pub fn update_flags(&mut self)
        ensures
            final(self).original_content == old(self).original_content,
            final(self).placeholders == old(self).placeholders,
            final(self).slotted_templates == old(self).slotted_templates,
            final(self).json_data == old(self).json_data,
            final(self).json_placeholders == old(self).json_placeholders,
            final(self).replacement_mappings == old(self).replacement_mappings,
            final(self).has_placeholders_flag == (old(self).placeholders@.len() > 0),
            final(self).has_slotted_templates_flag == (old(self).slotted_templates@.len() > 0),
            final(self).has_json_data_flag == match old(self).json_data {
                Some(o) => o.entries@.len() > 0,
                None => false,
            },
            final(self).has_json_placeholders_flag == (old(self).json_placeholders@.len() > 0),
            final(self).has_replacement_mappings_flag == (old(self).replacement_mappings@.len()
                > 0),
            final(self).requires_processing_flag == old(self).spec_requires_processing(),
    {
        self.has_placeholders_flag = self.has_placeholders();
        self.has_slotted_templates_flag = self.has_slotted_templates();
        self.has_json_data_flag = self.has_json_data();
        self.has_json_placeholders_flag = self.has_json_placeholders();
        self.has_replacement_mappings_flag = self.has_replacement_mappings();
        self.requires_processing_flag = self.requires_processing();
    }
}

/// The preprocessed fragments of one site.
pub struct PreprocessedSiteTemplates {
    pub site_name: String,
    pub templates: Vec<(String, PreprocessedTemplate)>,
    pub raw_templates: Vec<(String, String)>,
    pub template_keys: Vec<String>,
}

/// Counts over a site's preprocessed fragments.
pub struct PreprocessedSummary {
    pub site_name: String,
    pub templates_requiring_processing: usize,
    pub templates_with_json_data: usize,
    pub templates_with_placeholders: usize,
    pub total_templates: usize,
}

/// How many of the first `i` templates satisfy `requires_processing`.
pub open spec fn spec_count_requiring(s: Seq<(String, PreprocessedTemplate)>, i: int) -> int
    decreases i,
{
    if i <= 0 {
        0
    } else {
        spec_count_requiring(s, i - 1) + if s[i - 1].1.spec_requires_processing() {
            1int
        } else {
            0int
        }
    }
}

/// How many of the first `i` templates carry a non-empty JSON object.
pub open spec fn spec_count_json(s: Seq<(String, PreprocessedTemplate)>, i: int) -> int
    decreases i,
{
    if i <= 0 {
        0
    } else {
        spec_count_json(s, i - 1) + match s[i - 1].1.json_data {
            Some(o) => if o.entries@.len() > 0 {
                1int
            } else {
                0int
            },
            None => 0int,
        }
    }
}

/// How many of the first `i` templates hold simple references.
pub open spec fn spec_count_placeholders(s: Seq<(String, PreprocessedTemplate)>, i: int) -> int
    decreases i,
{
    if i <= 0 {
        0
    } else {
        spec_count_placeholders(s, i - 1) + if s[i - 1].1.placeholders@.len() > 0 {
            1int
        } else {
            0int
        }
    }
}

impl PreprocessedSiteTemplates {
    /// The summary of a site: how many fragments require processing, carry
    /// JSON, and hold references, out of the total.
    pub fn create_summary(&self) -> (r: PreprocessedSummary)
        ensures
            r.site_name@ == self.site_name@,
            r.templates_requiring_processing == spec_count_requiring(
                self.templates@,
                self.templates@.len() as int,
            ),
            r.templates_with_json_data == spec_count_json(
                self.templates@,
                self.templates@.len() as int,
            ),
            r.templates_with_placeholders == spec_count_placeholders(
                self.templates@,
                self.templates@.len() as int,
            ),
            r.total_templates == self.templates@.len(),
    {
        let mut requiring: usize = 0;
        let mut with_json: usize = 0;
        let mut with_ph: usize = 0;
        let mut i: usize = 0;
        while i < self.templates.len()
            invariant
                i <= self.templates@.len(),
                requiring == spec_count_requiring(self.templates@, i as int),
                with_json == spec_count_json(self.templates@, i as int),
                with_ph == spec_count_placeholders(self.templates@, i as int),
                requiring <= i && with_json <= i && with_ph <= i,
            decreases self.templates@.len() - i,
        {
            let t = &self.templates[i].1;
            if t.requires_processing() {
                requiring = requiring + 1;
            }
            if t.has_json_data() {
                with_json = with_json + 1;
            }
            if t.has_placeholders() {
                with_ph = with_ph + 1;
            }
            i = i + 1;
        }
        PreprocessedSummary {
            site_name: self.site_name.clone(),
            templates_requiring_processing: requiring,
            templates_with_json_data: with_json,
            templates_with_placeholders: with_ph,
            total_templates: self.templates.len(),
        }
    }
}

} // verus!
