//! The decisions behind the command-line operations: option values as
//! plain data, and what each command does to an opened document.
use crate::ai_policy::{AiPolicy, PolicyView};
use crate::custom_props::inserted_all;
use crate::docx::{
    main_part_error, main_part_unreadable, policy_injected, policy_rewritten, AiPolicyDocument, DocxDocument,
    OfficeDocument,
};
use crate::error::OfficeError;
use crate::formats::Document;
use crate::keywords::{keywords_of, split_keywords};
use crate::metadata::{opt_text, text_map_view};
use crate::metadata_patch::{MetadataPatch, PatchView};
use crate::replacement::{CaseMatching, ReplaceOptions};
use crate::text::{chars_of, find_from, first_occurrence, lemma_first_occurrence, string_of_range};
use crate::text_map::TextMap;
use vstd::prelude::*;
use vstd::std_specs::convert::FromSpecImpl;
use vstd::string::{StrSliceExecFns, StringExecFns};

verus! {

/// The predefined AI policies.
#[derive(Debug, PartialEq, Eq, Structural, Clone, Copy)]
pub enum PolicyPreset {
    /// Allow training and do not require review or attribution.
    Permissive,
    /// Require human review but not attribution.
    Standard,
    /// Disallow training and require review and attribution.
    Restricted,
}

/// The policy of a preset.
pub open spec fn preset_policy(preset: PolicyPreset) -> PolicyView {
    match preset {
        PolicyPreset::Permissive => PolicyView {
            id: "permissive"@,
            human_review_required: false,
            training_allowed: true,
            attribution_required: false,
            owner: None,
        },
        PolicyPreset::Standard => PolicyView {
            id: "standard"@,
            human_review_required: true,
            training_allowed: false,
            attribution_required: false,
            owner: None,
        },
        PolicyPreset::Restricted => PolicyView {
            id: "restricted"@,
            human_review_required: true,
            training_allowed: false,
            attribution_required: true,
            owner: None,
        },
    }
}

impl PolicyPreset {
    /// The policy this preset stands for.
    pub fn policy(&self) -> (policy: AiPolicy)
        ensures
            policy@ == preset_policy(*self),
    {
        match self {
            PolicyPreset::Permissive => AiPolicy {
                id: String::from_str("permissive"),
                human_review_required: false,
                training_allowed: true,
                attribution_required: false,
                owner: None,
            },
            PolicyPreset::Standard => AiPolicy {
                id: String::from_str("standard"),
                human_review_required: true,
                training_allowed: false,
                attribution_required: false,
                owner: None,
            },
            PolicyPreset::Restricted => AiPolicy {
                id: String::from_str("restricted"),
                human_review_required: true,
                training_allowed: false,
                attribution_required: true,
                owner: None,
            },
        }
    }
}

/// The options of injecting a policy.
pub struct InjectArgs {
    /// Where to write the document; the input when absent.
    pub output: Option<String>,
    /// The policy to inject; the standard one when absent.
    pub preset: Option<PolicyPreset>,
}

/// The options of updating a policy.
pub struct UpdateArgs {
    /// The policy to write; the standard one when absent.
    pub preset: Option<PolicyPreset>,
}

/// A policy command.
pub enum PolicyCommand {
    Inject(InjectArgs),
    Update(UpdateArgs),
    Remove,
    Validate,
}

/// The options of the policy command: the subcommand, if any.
pub struct PolicyArgs {
    pub command: Option<PolicyCommand>,
}

/// Where a policy command writes the document.
pub open spec fn policy_output(filepath: Seq<char>, command: PolicyCommand) -> Seq<char> {
    match command {
        PolicyCommand::Inject(args) => match args.output {
            Some(o) => o@,
            None => filepath,
        },
        _ => filepath,
    }
}

/// Where a policy command writes the document: the requested output when
/// injecting, else the input.
pub fn output_path<'a>(filepath: &'a str, command: &'a PolicyCommand) -> (path: &'a str)
    ensures
        path@ == policy_output(filepath@, *command),
{
    match command {
        PolicyCommand::Inject(args) => match &args.output {
            Some(o) => o.as_str(),
            None => filepath,
        },
        _ => filepath,
    }
}

/// The preset a command uses: the standard one when none is given.
pub open spec fn chosen_preset(preset: Option<PolicyPreset>) -> PolicyPreset {
    match preset {
        Some(p) => p,
        None => PolicyPreset::Standard,
    }
}

fn chosen(preset: &Option<PolicyPreset>) -> (p: PolicyPreset)
    ensures
        p == chosen_preset(*preset),
{
    match preset {
        Some(p) => *p,
        None => PolicyPreset::Standard,
    }
}

/// What a policy command did.
#[derive(Debug, PartialEq, Eq, Structural, Clone, Copy)]
pub enum PolicyOutcome {
    Injected,
    Updated,
    Removed,
    NothingToRemove,
    Valid,
}

/// Runs a policy command on an opened document.
pub fn run(document: &mut Document, command: &PolicyCommand) -> (outcome: Result<PolicyOutcome, OfficeError>)
    ensures
        ({
            let before = old(document).docx().contents();
            let after = final(document).docx().contents();
            match *command {
                PolicyCommand::Inject(args) => match policy_injected(before, preset_policy(chosen_preset(args.preset))) {
                    Some(xml) => outcome == Ok::<PolicyOutcome, OfficeError>(PolicyOutcome::Injected) && after
                        == before.insert(crate::docx::document_key(), xml),
                    None => after == before && (outcome matches Err(e) && main_part_error(
                        before,
                        main_part_unreadable(before),
                        e,
                        |e: OfficeError| e is InvalidDocument,
                    )),
                },
                PolicyCommand::Update(args) => match policy_rewritten(
                    before,
                    Some(preset_policy(chosen_preset(args.preset))),
                ) {
                    Some((true, xml)) => outcome == Ok::<PolicyOutcome, OfficeError>(PolicyOutcome::Updated) && after
                        == before.insert(crate::docx::document_key(), xml),
                    _ => after == before && (outcome matches Err(e) && main_part_error(
                        before,
                        main_part_unreadable(before),
                        e,
                        |e: OfficeError| e is InvalidAiPolicy,
                    )),
                },
                PolicyCommand::Remove => match policy_rewritten(before, None) {
                    Some((true, xml)) => outcome == Ok::<PolicyOutcome, OfficeError>(PolicyOutcome::Removed) && after
                        == before.insert(crate::docx::document_key(), xml),
                    Some((false, _)) => outcome == Ok::<PolicyOutcome, OfficeError>(PolicyOutcome::NothingToRemove)
                        && after == before,
                    None => after == before && (outcome matches Err(e) && main_part_error(
                        before,
                        main_part_unreadable(before),
                        e,
                        |e: OfficeError| e is InvalidAiPolicy,
                    )),
                },
                PolicyCommand::Validate => after == before && (outcome is Ok ==> outcome == Ok::<
                    PolicyOutcome,
                    OfficeError,
                >(PolicyOutcome::Valid)) && (outcome is Ok <==> (crate::docx::package_policy_text(before) matches Some(
                    Some(t),
                ) && crate::ai_policy::parsed_prompt(t.skip(crate::policy_markup::POLICY_PREFIX@.len() as int)) is Some))
                    && (outcome matches Err(e) ==> if crate::docx::package_policy_text(before) is None {
                    main_part_error(
                        before,
                        crate::policy_markup::policy_reader_fails(before[crate::docx::document_key()]),
                        e,
                        |e: OfficeError| e is InvalidAiPolicy,
                    )
                } else {
                    e is InvalidAiPolicy
                }),
            }
        }),
{
    let policy_document = match document.as_ai_policy_document() {
        Some(d) => d,
        None => return Err(OfficeError::UnsupportedFileType(String::from_str("document format does not support AI policies"))),
    };
    match command {
        PolicyCommand::Inject(args) => {
            let policy = chosen(&args.preset).policy();
            policy_document.inject_policy(&policy)?;
            Ok(PolicyOutcome::Injected)
        },
        PolicyCommand::Update(args) => {
            let policy = chosen(&args.preset).policy();
            policy_document.update_policy(&policy)?;
            Ok(PolicyOutcome::Updated)
        },
        PolicyCommand::Remove => {
            if policy_document.remove_policy()? {
                Ok(PolicyOutcome::Removed)
            } else {
                Ok(PolicyOutcome::NothingToRemove)
            }
        },
        PolicyCommand::Validate => {
            policy_document.validate_policy()?;
            Ok(PolicyOutcome::Valid)
        },
    }
}

/// The strength of the predefined policy to inject.
#[derive(Debug, PartialEq, Eq, Structural, Clone, Copy)]
pub enum InjectPolicy {
    /// The least restrictive predefined policy.
    Weak,
    /// The most restrictive predefined policy.
    Strong,
}

/// The options of the simple policy command.
pub struct InjectPolicyArgs {
    pub inject: Option<InjectPolicy>,
}

/// The policy the simple policy command injects: human review required,
/// everything else as in the default policy.
pub open spec fn review_policy() -> PolicyView {
    PolicyView {
        id: Seq::empty(),
        human_review_required: true,
        training_allowed: false,
        attribution_required: false,
        owner: None,
    }
}

/// Injects the policy that requires human review into an opened document.
pub fn handle_policy(document: &mut Document, args: &InjectPolicyArgs) -> (done: Result<(), OfficeError>)
    ensures
        ({
            let before = old(document).docx().contents();
            match policy_injected(before, review_policy()) {
                Some(xml) => done is Ok && final(document).docx().contents() == before.insert(
                    crate::docx::document_key(),
                    xml,
                ),
                None => final(document).docx().contents() == before && (done matches Err(e) && main_part_error(
                    before,
                    main_part_unreadable(before),
                    e,
                    |e: OfficeError| e is InvalidDocument,
                )),
            }
        }),
{
    let policy_document = match document.as_ai_policy_document() {
        Some(d) => d,
        None => return Err(OfficeError::UnsupportedFileType(String::from_str("document format does not support AI policies"))),
    };
    let policy = AiPolicy {
        id: String::new(),
        human_review_required: true,
        training_allowed: false,
        attribution_required: false,
        owner: None,
    };
    assert(policy@ =~= review_policy());
    policy_document.inject_policy(&policy)
}

/// Where an updated document goes.
pub struct DestinationArgs {
    /// Write the updated document to this path.
    pub output: Option<String>,
    /// Update the input document.
    pub in_place: bool,
}

impl DestinationArgs {
    /// The output path, or the input path when none is given.
    pub fn output_or<'a>(&'a self, input: &'a str) -> (path: &'a str)
        ensures
            path@ == match self.output {
                Some(o) => o@,
                None => input@,
            },
    {
        match &self.output {
            Some(o) => o.as_str(),
            None => input,
        }
    }
}

/// The options of replacing text.
pub struct ReplaceArgs {
    pub output: Option<String>,
    pub search: Option<String>,
    pub replace: Option<String>,
    pub ignore_case: bool,
}

impl ReplaceArgs {
    /// The replacement options these arguments ask for.
    pub fn options(&self) -> (options: ReplaceOptions)
        ensures
            options.case_matching == if self.ignore_case {
                CaseMatching::UnicodeInsensitive
            } else {
                CaseMatching::Sensitive
            },
    {
        ReplaceOptions {
            case_matching: if self.ignore_case {
                CaseMatching::UnicodeInsensitive
            } else {
                CaseMatching::Sensitive
            },
        }
    }
}

/// Replaces text in an opened document; the number of replacements, after
/// which the document is written only when it is not zero.
pub fn replace(document: &mut Document, search: &str, replacement: &str, options: ReplaceOptions) -> (count: Result<
    usize,
    OfficeError,
>)
    ensures
        match crate::docx::text_replaced(old(document).docx().contents(), search@, replacement@, options.case_matching) {
            Some((n, contents)) => count matches Ok(c) && c == n && final(document).docx().contents() == contents,
            None => final(document).docx().contents() == old(document).docx().contents() && (count matches Err(e)
                && main_part_error(
                old(document).docx().contents(),
                main_part_unreadable(old(document).docx().contents()),
                e,
                |e: OfficeError| e is InvalidDocument,
            )),
        },
{
    document.replace_text(search, replacement, options)
}

/// The editable metadata fields given on the command line.
pub struct SetArgs {
    pub title: Option<String>,
    pub description: Option<String>,
    pub author: Option<String>,
    pub keywords: Option<String>,
    pub creator: Option<String>,
    pub subject: Option<String>,
    pub category: Option<String>,
    pub content_status: Option<String>,
    pub content_type: Option<String>,
    pub language: Option<String>,
    pub identifier: Option<String>,
    pub version: Option<String>,
    /// Custom properties as name and value.
    pub custom: Vec<(String, String)>,
    /// A file with a patch in JSON.
    pub profile: Option<String>,
    pub destination: DestinationArgs,
}

/// The views of name-value pairs.
pub open spec fn pairs_view(pairs: Seq<(String, String)>) -> Seq<(Seq<char>, Seq<char>)> {
    pairs.map_values(|p: (String, String)| (p.0@, p.1@))
}

/// The patch that command-line fields ask for: the creator falls back to
/// the author, keywords are split at commas, and custom properties are
/// collected with later ones winning; none when there are none.
pub open spec fn args_patch(args: SetArgs) -> PatchView {
    PatchView {
        category: opt_text(args.category),
        content_status: opt_text(args.content_status),
        content_type: opt_text(args.content_type),
        creator: match opt_text(args.creator) {
            Some(c) => Some(c),
            None => opt_text(args.author),
        },
        custom: if args.custom@.len() == 0 {
            None
        } else {
            Some(inserted_all(Map::empty(), pairs_view(args.custom@)))
        },
        description: opt_text(args.description),
        identifier: opt_text(args.identifier),
        keywords: match args.keywords {
            Some(k) => Some(keywords_of(k@)),
            None => None,
        },
        language: opt_text(args.language),
        subject: opt_text(args.subject),
        title: opt_text(args.title),
        version: opt_text(args.version),
    }
}

impl MetadataPatch {
    /// The patch that command-line fields ask for.
    pub fn from_set_args(args: &SetArgs) -> (patch: MetadataPatch)
        ensures
            patch@ == args_patch(*args),
    {
        let custom = if args.custom.len() == 0 {
            None
        } else {
            let mut map: TextMap<String> = TextMap::new();
            let ghost pairs = pairs_view(args.custom@);
            let mut i: usize = 0;
            assert(text_map_view(map) =~= Map::<Seq<char>, Seq<char>>::empty());
            assert(pairs.take(0) =~= Seq::<(Seq<char>, Seq<char>)>::empty());
            while i < args.custom.len()
                invariant
                    i <= args.custom.len(),
                    pairs == pairs_view(args.custom@),
                    text_map_view(map) == inserted_all(Map::empty(), pairs.take(i as int)),
                decreases args.custom.len() - i,
            {
                let ghost before = map;
                let (name, value) = &args.custom[i];
                map.insert(name.as_str(), value.clone());
                proof {
                    assert(text_map_view(map) =~= text_map_view(before).insert(name@, value@));
                    assert(pairs.take(i + 1).drop_last() =~= pairs.take(i as int));
                    assert(pairs.take(i + 1).last() == (name@, value@));
                }
                i = i + 1;
            }
            assert(pairs.take(args.custom.len() as int) =~= pairs);
            Some(map)
        };
        MetadataPatch {
            category: crate::metadata::copy_text(&args.category),
            content_status: crate::metadata::copy_text(&args.content_status),
            content_type: crate::metadata::copy_text(&args.content_type),
            creator: match &args.creator {
                Some(c) => Some(c.clone()),
                None => crate::metadata::copy_text(&args.author),
            },
            custom,
            description: crate::metadata::copy_text(&args.description),
            identifier: crate::metadata::copy_text(&args.identifier),
            keywords: match &args.keywords {
                Some(k) => Some(split_keywords(k.as_str())),
                None => None,
            },
            language: crate::metadata::copy_text(&args.language),
            subject: crate::metadata::copy_text(&args.subject),
            title: crate::metadata::copy_text(&args.title),
            version: crate::metadata::copy_text(&args.version),
        }
    }
}

impl From<&SetArgs> for MetadataPatch {
    fn from(args: &SetArgs) -> (patch: MetadataPatch)
        ensures
            patch@ == args_patch(*args),
    {
        MetadataPatch::from_set_args(args)
    }
}

impl FromSpecImpl<&SetArgs> for MetadataPatch {
    open spec fn obeys_from_spec() -> bool {
        false
    }

    open spec fn from_spec(args: &SetArgs) -> MetadataPatch {
        arbitrary()
    }
}

/// A custom property written `NAME=VALUE`: split at the first `=`; an
/// error when there is none or the name is empty.
pub open spec fn custom_property_of(value: Seq<char>) -> Option<(Seq<char>, Seq<char>)> {
    match first_occurrence(value, seq!['='], 0) {
        Some(i) => if i == 0 {
            None
        } else {
            Some((value.take(i), value.skip(i + 1)))
        },
        None => None,
    }
}

/// Reads a custom property written `NAME=VALUE`.
pub fn parse_custom_property(value: &str) -> (property: Result<(String, String), String>)
    ensures
        match custom_property_of(value@) {
            Some((name, v)) => property matches Ok((n, w)) && n@ == name && w@ == v,
            None => property matches Err(m) && m@ == if first_occurrence(value@, seq!['='], 0) is Some {
                "property name cannot be empty"@
            } else {
                "must be in NAME=VALUE form"@
            },
        },
{
    let chars = chars_of(value);
    let equals = vec!['='];
    assert(equals@ =~= seq!['=']);
    match find_from(chars.as_slice(), equals.as_slice(), 0) {
        Some(i) => {
            proof {
                lemma_first_occurrence(value@, seq!['='], 0);
            }
            if i == 0 {
                return Err(String::from_str("property name cannot be empty"));
            }
            let name = string_of_range(chars.as_slice(), 0, i);
            let v = string_of_range(chars.as_slice(), i + 1, chars.len());
            assert(chars@.subrange(0, i as int) =~= value@.take(i as int));
            assert(chars@.subrange(i + 1, chars@.len() as int) =~= value@.skip(i + 1));
            Ok((name, v))
        },
        None => Err(String::from_str("must be in NAME=VALUE form")),
    }
}

/// The patch of the `metadata set` arguments gives each field its
/// argument: the creator, or else the author; the keywords split at commas;
/// every other text field as it was given, and no value where none was.
pub proof fn law_set_args_give_their_fields(args: SetArgs)
    ensures
        args_patch(args).title == (match args.title {
            Some(s) => Some(s@),
            None => None::<Seq<char>>,
        }),
        args_patch(args).description == (match args.description {
            Some(s) => Some(s@),
            None => None::<Seq<char>>,
        }),
        args_patch(args).subject == (match args.subject {
            Some(s) => Some(s@),
            None => None::<Seq<char>>,
        }),
        args_patch(args).category == (match args.category {
            Some(s) => Some(s@),
            None => None::<Seq<char>>,
        }),
        args_patch(args).content_status == (match args.content_status {
            Some(s) => Some(s@),
            None => None::<Seq<char>>,
        }),
        args_patch(args).content_type == (match args.content_type {
            Some(s) => Some(s@),
            None => None::<Seq<char>>,
        }),
        args_patch(args).language == (match args.language {
            Some(s) => Some(s@),
            None => None::<Seq<char>>,
        }),
        args_patch(args).identifier == (match args.identifier {
            Some(s) => Some(s@),
            None => None::<Seq<char>>,
        }),
        args_patch(args).version == (match args.version {
            Some(s) => Some(s@),
            None => None::<Seq<char>>,
        }),
        args_patch(args).creator == (match (args.creator, args.author) {
            (Some(c), _) => Some(c@),
            (None, Some(a)) => Some(a@),
            (None, None) => None::<Seq<char>>,
        }),
        args_patch(args).keywords == (match args.keywords {
            Some(k) => Some(keywords_of(k@)),
            None => None::<Seq<Seq<char>>>,
        }),
        args.custom.len() == 0 <==> args_patch(args).custom is None,
{
}

} // verus!
