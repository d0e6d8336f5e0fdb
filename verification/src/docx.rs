//! Word documents (DOCX): text replacement, metadata, validation and AI
//! policies on top of an OOXML package.
use crate::ai_policy::{parsed_prompt, AiPolicy, PolicyView};
use crate::error::OfficeError;
use crate::metadata::OfficeMetadata;
use crate::package::{archive_parts, reread_parts, OoxmlPackage};
use crate::zip_io::zip_opens;
use crate::text_map::sorted_entries;
use crate::part::{normalized_part_name, PartName};
use crate::policy_markup::{
    policy_reader_fails,
    has_policy_marker, injected_events, policy_marker_text, policy_paragraph, read_policy, replacement_events,
    rewrite_hidden_policy, rewritten_events, write_hidden_policy, POLICY_PREFIX,
};
use crate::properties::{metadata_written, package_metadata, read_metadata, write_metadata};
use crate::registration::{CONTENT_TYPES_PART, ROOT_RELATIONSHIPS_PART};
use crate::replacement::{CaseMatching, ReplaceOptions};
use crate::word_text::{document_replacement, replace_document_text};
use crate::xml::markup;
use crate::xml_reader::parsed_events;
use vstd::prelude::*;
use vstd::string::StringExecFns;
use vstd::utf8::encode_utf8;

verus! {

/// The name of a Word document's main part.
pub const DOCUMENT_XML: &'static str = "word/document.xml";

/// The name of a Word document's styles part.
pub const STYLES_XML: &'static str = "word/styles.xml";

/// How serious a validation finding is.
#[derive(Debug, PartialEq, Eq, Structural, Clone, Copy)]
pub enum Severity {
    Info,
    Warning,
    Error,
}

/// A finding of document validation, about a part or the whole document.
#[derive(Debug)]
pub struct ValidationIssue {
    pub severity: Severity,
    pub part: Option<PartName>,
    pub message: String,
}

/// The mathematical value of a [`ValidationIssue`].
pub struct IssueView {
    pub severity: Severity,
    pub part: Option<Seq<char>>,
    pub message: Seq<char>,
}

impl View for ValidationIssue {
    type V = IssueView;

    open spec fn view(&self) -> IssueView {
        IssueView {
            severity: self.severity,
            part: match self.part {
                Some(p) => Some(p@),
                None => None,
            },
            message: self.message@,
        }
    }
}

/// The views of a list of issues.
pub open spec fn issues_view(issues: Seq<ValidationIssue>) -> Seq<IssueView> {
    issues.map_values(|i: ValidationIssue| i@)
}

impl ValidationIssue {
    /// An error about a part, or about the whole document.
    pub fn error(part: Option<PartName>, message: &str) -> (issue: ValidationIssue)
        ensures
            issue.severity == Severity::Error,
            issue@.part == match part {
                Some(p) => Some(p@),
                None => None::<Seq<char>>,
            },
            issue@.message == message@,
    {
        ValidationIssue { severity: Severity::Error, part, message: message.to_owned() }
    }

    /// A warning about a part, or about the whole document.
    pub fn warning(part: Option<PartName>, message: &str) -> (issue: ValidationIssue)
        ensures
            issue.severity == Severity::Warning,
            issue@.part == match part {
                Some(p) => Some(p@),
                None => None::<Seq<char>>,
            },
            issue@.message == message@,
    {
        ValidationIssue { severity: Severity::Warning, part, message: message.to_owned() }
    }
}

/// The message of a missing required part.
pub open spec fn missing_part_message() -> Seq<char> {
    "Required DOCX part is missing"@
}

/// The issue for a required part when the package lacks it.
pub open spec fn required_part_issue(contents: Map<Seq<char>, Seq<u8>>, name: Seq<char>) -> Seq<IssueView> {
    let part = normalized_part_name(name);
    if contents.dom().contains(part) {
        Seq::empty()
    } else {
        seq![IssueView { severity: Severity::Error, part: Some(part), message: missing_part_message() }]
    }
}

/// The issues of a Word package: an error for each missing required part,
/// the content types, the root relationships and the main part, in that
/// order.
pub open spec fn docx_issues(contents: Map<Seq<char>, Seq<u8>>) -> Seq<IssueView> {
    required_part_issue(contents, CONTENT_TYPES_PART@) + required_part_issue(contents, ROOT_RELATIONSHIPS_PART@)
        + required_part_issue(contents, DOCUMENT_XML@)
}

/// Operations on documents stored as OOXML packages.
pub trait OoxmlDocument: Sized {
    /// A document backed by a package.
    fn from_package(package: OoxmlPackage) -> Self;

    /// A document read from the bytes of a package.
    fn from_bytes(bytes: &[u8]) -> Result<Self, OfficeError>;

    /// The package behind the document.
    fn package(&self) -> &OoxmlPackage;

    /// The package behind the document, for changes.
    fn mut_package(&mut self) -> &mut OoxmlPackage;

    /// The names of the package's parts, in order.
    fn parts(&self) -> Vec<PartName>;

    /// The content of a part.
    fn read_part(&self, part: &PartName) -> Result<&[u8], OfficeError>;

    /// Stores a part.
    fn write_part(&mut self, part: PartName, content: Vec<u8>) -> Result<(), OfficeError>;

    /// Removes a part.
    fn remove_part(&mut self, part: &PartName) -> Result<(), OfficeError>;

    /// Whether the package has a part.
    fn contains_part(&self, part: &PartName) -> bool;
}

/// Operations common to Office documents.
pub trait OfficeDocument {
    /// Replaces all occurrences of `search` with `replacement`; the number
    /// of replacements.
    fn replace_text(&mut self, search: &str, replacement: &str, options: ReplaceOptions) -> Result<usize, OfficeError>;

    /// The path the document was read from, if any.
    fn source_path(&self) -> Option<&str>;

    /// The document's metadata.
    fn metadata(&self) -> Result<OfficeMetadata, OfficeError>;

    /// Replaces the document's metadata.
    fn set_metadata(&mut self, metadata: &OfficeMetadata) -> Result<(), OfficeError>;

    /// The document's structural problems.
    fn validate(&self) -> Result<Vec<ValidationIssue>, OfficeError>;

    /// The bytes of the document as a file.
    fn to_bytes(&self) -> Result<Vec<u8>, OfficeError>;
}

/// Documents that carry an AI usage policy.
pub trait AiPolicyDocument {
    /// The policy the document carries, if any.
    fn policy(&self) -> Result<Option<AiPolicy>, OfficeError>;

    /// Adds a policy to the document.
    fn inject_policy(&mut self, policy: &AiPolicy) -> Result<(), OfficeError>;

    /// Whether the document carries a policy.
    fn has_policy(&self) -> Result<bool, OfficeError>;

    /// Replaces the document's policy; an error when it has none.
    fn update_policy(&mut self, policy: &AiPolicy) -> Result<(), OfficeError>;

    /// Removes the document's policy; whether it had one.
    fn remove_policy(&mut self) -> Result<bool, OfficeError>;

    /// Checks that the document carries a well-formed policy.
    fn validate_policy(&self) -> Result<(), OfficeError>;
}

/// A Word document backed by an OOXML package.
pub struct DocxDocument {
    package: OoxmlPackage,
}

/// The package contents after replacing text in the main part: changed only
/// when something was replaced; `None` when the main part is missing or
/// cannot be read.
pub open spec fn text_replaced(
    contents: Map<Seq<char>, Seq<u8>>,
    search: Seq<char>,
    replacement: Seq<char>,
    case_matching: CaseMatching,
) -> Option<(nat, Map<Seq<char>, Seq<u8>>)> {
    let key = normalized_part_name(DOCUMENT_XML@);
    if !contents.dom().contains(key) {
        None
    } else {
        match document_replacement(contents[key], search, replacement, case_matching) {
            Some((count, xml)) => Some((count, if count > 0 { contents.insert(key, xml) } else { contents })),
            None => None,
        }
    }
}

/// The key of the main part.
pub open spec fn document_key() -> Seq<char> {
    normalized_part_name(DOCUMENT_XML@)
}

/// The error of an operation on the main part that fails: the part is
/// missing, the reader cannot read it, or else its content is invalid, of
/// the kind given.
pub open spec fn main_part_error(
    contents: Map<Seq<char>, Seq<u8>>,
    reader_fails: bool,
    e: OfficeError,
    content_error: spec_fn(OfficeError) -> bool,
) -> bool {
    if !contents.dom().contains(document_key()) {
        e is PartNotFound
    } else if reader_fails {
        e is Xml
    } else {
        content_error(e)
    }
}

/// Whether the reader fails on the main part, read whole.
pub open spec fn main_part_unreadable(contents: Map<Seq<char>, Seq<u8>>) -> bool {
    contents.dom().contains(document_key()) && parsed_events(contents[document_key()], false) is None
}

/// The policy paragraph text of a package's main part: `None` when it is
/// missing or cannot be scanned.
pub open spec fn package_policy_text(contents: Map<Seq<char>, Seq<u8>>) -> Option<Option<Seq<char>>> {
    if contents.dom().contains(document_key()) {
        policy_marker_text(contents[document_key()])
    } else {
        None
    }
}

/// The main part after rewriting its policy paragraphs: whether one was
/// found and the new part; `None` when it is missing or cannot be
/// rewritten.
pub open spec fn policy_rewritten(contents: Map<Seq<char>, Seq<u8>>, replacement: Option<PolicyView>) -> Option<
    (bool, Seq<u8>),
> {
    if contents.dom().contains(document_key()) {
        match parsed_events(contents[document_key()], false) {
            Some(events) => match rewritten_events(events, replacement_events(replacement)) {
                Some((found, out)) => Some((found, encode_utf8(markup(out)))),
                None => None,
            },
            None => None,
        }
    } else {
        None
    }
}

/// The main part with a policy injected; `None` when it is missing, cannot
/// be read or has no body.
pub open spec fn policy_injected(contents: Map<Seq<char>, Seq<u8>>, policy: PolicyView) -> Option<Seq<u8>> {
    if contents.dom().contains(document_key()) {
        match parsed_events(contents[document_key()], false) {
            Some(events) => match injected_events(events, policy_paragraph(policy)) {
                Some(out) => Some(encode_utf8(markup(out))),
                None => None,
            },
            None => None,
        }
    } else {
        None
    }
}

impl DocxDocument {
    /// The parts of the document, by name.
    pub closed spec fn contents(&self) -> Map<Seq<char>, Seq<u8>> {
        self.package.contents()
    }

    /// The path the document was read from.
    pub closed spec fn origin(&self) -> Option<Seq<char>> {
        self.package.origin()
    }

    /// The package behind the document.
    pub closed spec fn package_spec(&self) -> OoxmlPackage {
        self.package
    }

    /// The raw main part, `word/document.xml`.
    pub fn document_xml(&self) -> (xml: Result<&[u8], OfficeError>)
        ensures
            match xml {
                Ok(x) => self.contents().dom().contains(document_key()) && x@ == self.contents()[document_key()],
                Err(e) => !self.contents().dom().contains(document_key()) && e is PartNotFound,
            },
    {
        self.package.read_part(&PartName::new(DOCUMENT_XML))
    }

    /// The raw styles part, `word/styles.xml`, when the document has one.
    pub fn styles_xml(&self) -> (xml: Result<Option<&[u8]>, OfficeError>)
        ensures
            ({
                let key = normalized_part_name(STYLES_XML@);
                match xml {
                    Ok(Some(x)) => self.contents().dom().contains(key) && x@ == self.contents()[key],
                    Ok(None) => !self.contents().dom().contains(key),
                    Err(_) => false,
                }
            }),
    {
        let part = PartName::new(STYLES_XML);
        if self.package.contains_part(&part) {
            Ok(Some(self.package.read_part(&part)?))
        } else {
            Ok(None)
        }
    }

    pub(crate) fn replace_with(&mut self, search: &str, replacement: &str, case_matching: CaseMatching) -> (count: Result<
        usize,
        OfficeError,
    >)
        ensures
            match text_replaced(old(self).contents(), search@, replacement@, case_matching) {
                Some((n, contents)) => count matches Ok(c) && c == n && final(self).contents() == contents,
                None => final(self).contents() == old(self).contents() && (count matches Err(e) && main_part_error(
                    old(self).contents(),
                    main_part_unreadable(old(self).contents()),
                    e,
                    |e: OfficeError| e is InvalidDocument,
                )),
            },
            final(self).origin() == old(self).origin(),
    {
        let part = PartName::new(DOCUMENT_XML);
        let (count, updated) = replace_document_text(self.package.read_part(&part)?, search, replacement, case_matching)?;
        if count > 0 {
            self.package.write_part(part, updated);
        }
        Ok(count)
    }
}

impl OoxmlDocument for DocxDocument {
    fn from_package(package: OoxmlPackage) -> (document: DocxDocument)
        ensures
            document.package_spec() == package,
    {
        DocxDocument { package }
    }

    fn from_bytes(bytes: &[u8]) -> (document: Result<DocxDocument, OfficeError>)
        ensures
            document is Ok <==> archive_parts(bytes@) is Some,
            document matches Ok(d) ==> archive_parts(bytes@) == Some(d.contents()) && d.origin() is None,
            document matches Err(e) ==> if zip_opens(bytes@) {
                e is Zip || e is Io
            } else {
                e is Zip
            },
    {
        Ok(DocxDocument { package: OoxmlPackage::from_bytes(bytes)? })
    }

    fn package(&self) -> (package: &OoxmlPackage)
        ensures
            *package == self.package_spec(),
    {
        &self.package
    }

    fn mut_package(&mut self) -> (package: &mut OoxmlPackage)
        ensures
            *package == old(self).package_spec(),
            final(self).package_spec() == *final(package),
    {
        &mut self.package
    }

    fn parts(&self) -> (names: Vec<PartName>)
        ensures
            forall|k: Seq<char>| self.contents().dom().contains(k) <==> names@.map_values(|n: PartName| n@).contains(k),
            crate::text_map::strictly_sorted(names@.map_values(|n: PartName| n@)),
    {
        self.package.parts()
    }

    fn read_part(&self, part: &PartName) -> (content: Result<&[u8], OfficeError>)
        ensures
            match content {
                Ok(c) => self.contents().dom().contains(part@) && c@ == self.contents()[part@],
                Err(e) => !self.contents().dom().contains(part@) && e is PartNotFound,
            },
    {
        self.package.read_part(part)
    }

    fn write_part(&mut self, part: PartName, content: Vec<u8>) -> (done: Result<(), OfficeError>)
        ensures
            done is Ok,
            final(self).contents() == old(self).contents().insert(part@, content@),
            final(self).origin() == old(self).origin(),
    {
        self.package.write_part(part, content);
        Ok(())
    }

    fn remove_part(&mut self, part: &PartName) -> (done: Result<(), OfficeError>)
        ensures
            done is Ok,
            final(self).contents() == old(self).contents().remove(part@),
            final(self).origin() == old(self).origin(),
    {
        self.package.remove_part(part);
        Ok(())
    }

    fn contains_part(&self, part: &PartName) -> (found: bool)
        ensures
            found == self.contents().dom().contains(part@),
    {
        self.package.contains_part(part)
    }
}

impl OfficeDocument for DocxDocument {
    fn replace_text(&mut self, search: &str, replacement: &str, options: ReplaceOptions) -> (count: Result<
        usize,
        OfficeError,
    >)
        ensures
            match text_replaced(old(self).contents(), search@, replacement@, options.case_matching) {
                Some((n, contents)) => count matches Ok(c) && c == n && final(self).contents() == contents,
                None => final(self).contents() == old(self).contents() && (count matches Err(e) && main_part_error(
                    old(self).contents(),
                    main_part_unreadable(old(self).contents()),
                    e,
                    |e: OfficeError| e is InvalidDocument,
                )),
            },
            final(self).origin() == old(self).origin(),
    {
        self.replace_with(search, replacement, options.case_matching)
    }

    fn source_path(&self) -> (path: Option<&str>)
        ensures
            match path {
                Some(p) => self.origin() == Some(p@),
                None => self.origin() is None,
            },
    {
        self.package.source_path()
    }

    fn metadata(&self) -> (metadata: Result<OfficeMetadata, OfficeError>)
        ensures
            match package_metadata(self.contents()) {
                Some(view) => metadata matches Ok(m) && m@ == view,
                None => metadata matches Err(e) && (e is Xml || e is InvalidDocument),
            },
    {
        read_metadata(&self.package)
    }

    fn set_metadata(&mut self, metadata: &OfficeMetadata) -> (done: Result<(), OfficeError>)
        ensures
            match metadata_written(old(self).contents(), metadata@) {
                Ok(contents) => done is Ok && final(self).contents() == contents,
                Err(contents) => final(self).contents() == contents && (done matches Err(e) && (e is PartNotFound
                    || e is InvalidDocument)),
            },
            final(self).origin() == old(self).origin(),
    {
        write_metadata(&mut self.package, metadata)
    }

    fn validate(&self) -> (issues: Result<Vec<ValidationIssue>, OfficeError>)
        ensures
            issues matches Ok(list) && issues_view(list@) == docx_issues(self.contents()),
    {
        let mut issues: Vec<ValidationIssue> = Vec::new();
        let ghost contents = self.contents();
        assert(issues_view(issues@) =~= Seq::<IssueView>::empty());
        self.push_missing(&mut issues, CONTENT_TYPES_PART);
        self.push_missing(&mut issues, ROOT_RELATIONSHIPS_PART);
        self.push_missing(&mut issues, DOCUMENT_XML);
        proof {
            assert(issues_view(issues@) =~= docx_issues(contents));
        }
        Ok(issues)
    }

    fn to_bytes(&self) -> (bytes: Result<Vec<u8>, OfficeError>)
        ensures
            bytes matches Ok(b) ==> archive_parts(b@) == Some(reread_parts(sorted_entries(self.contents()))),
            bytes matches Err(e) ==> e is Zip || e is Io,
    {
        self.package.to_bytes()
    }
}

impl DocxDocument {
    fn push_missing(&self, issues: &mut Vec<ValidationIssue>, name: &str)
        ensures
            issues_view(final(issues)@) == issues_view(old(issues)@) + required_part_issue(self.contents(), name@),
    {
        let part = PartName::new(name);
        let ghost before = issues_view(issues@);
        if !self.package.contains_part(&part) {
            let ghost key = part@;
            let issue = ValidationIssue::error(Some(part), "Required DOCX part is missing");
            issues.push(issue);
            proof {
                reveal_strlit("Required DOCX part is missing");
                assert(issues_view(issues@) =~= before + required_part_issue(self.contents(), name@));
            }
        } else {
            assert(issues_view(issues@) =~= before + required_part_issue(self.contents(), name@));
        }
    }
}

impl AiPolicyDocument for DocxDocument {
    fn policy(&self) -> (policy: Result<Option<AiPolicy>, OfficeError>)
        ensures
            match package_policy_text(self.contents()) {
                Some(None) => policy matches Ok(None),
                Some(Some(t)) => match parsed_prompt(t.skip(POLICY_PREFIX@.len() as int)) {
                    Some(p) => policy matches Ok(Some(q)) && q@ == p,
                    None => policy matches Err(e) && e is InvalidAiPolicy,
                },
                None => policy matches Err(e) && main_part_error(
                    self.contents(),
                    policy_reader_fails(self.contents()[document_key()]),
                    e,
                    |e: OfficeError| e is InvalidAiPolicy,
                ),
            },
    {
        read_policy(self.document_xml()?)
    }

    fn inject_policy(&mut self, policy: &AiPolicy) -> (done: Result<(), OfficeError>)
        ensures
            match policy_injected(old(self).contents(), policy@) {
                Some(xml) => done is Ok && final(self).contents() == old(self).contents().insert(document_key(), xml),
                None => final(self).contents() == old(self).contents() && (done matches Err(e) && main_part_error(
                    old(self).contents(),
                    main_part_unreadable(old(self).contents()),
                    e,
                    |e: OfficeError| e is InvalidDocument,
                )),
            },
            final(self).origin() == old(self).origin(),
    {
        let part = PartName::new(DOCUMENT_XML);
        let updated = write_hidden_policy(self.package.read_part(&part)?, policy)?;
        self.package.write_part(part, updated);
        Ok(())
    }

    fn has_policy(&self) -> (found: Result<bool, OfficeError>)
        ensures
            match package_policy_text(self.contents()) {
                Some(t) => found == Ok::<bool, OfficeError>(t is Some),
                None => found matches Err(e) && main_part_error(
                    self.contents(),
                    policy_reader_fails(self.contents()[document_key()]),
                    e,
                    |e: OfficeError| e is InvalidAiPolicy,
                ),
            },
    {
        has_policy_marker(self.document_xml()?)
    }

    fn update_policy(&mut self, policy: &AiPolicy) -> (done: Result<(), OfficeError>)
        ensures
            match policy_rewritten(old(self).contents(), Some(policy@)) {
                Some((true, xml)) => done is Ok && final(self).contents() == old(self).contents().insert(
                    document_key(),
                    xml,
                ),
                _ => final(self).contents() == old(self).contents() && (done matches Err(e) && main_part_error(
                    old(self).contents(),
                    main_part_unreadable(old(self).contents()),
                    e,
                    |e: OfficeError| e is InvalidAiPolicy,
                )),
            },
            final(self).origin() == old(self).origin(),
    {
        let part = PartName::new(DOCUMENT_XML);
        let (found, updated) = rewrite_hidden_policy(self.package.read_part(&part)?, Some(policy))?;
        if !found {
            return Err(OfficeError::InvalidAiPolicy(String::from_str("document has no AI policy to update")));
        }
        self.package.write_part(part, updated);
        Ok(())
    }

    fn remove_policy(&mut self) -> (removed: Result<bool, OfficeError>)
        ensures
            match policy_rewritten(old(self).contents(), None) {
                Some((true, xml)) => removed == Ok::<bool, OfficeError>(true) && final(self).contents() == old(
                    self,
                ).contents().insert(document_key(), xml),
                Some((false, _)) => removed == Ok::<bool, OfficeError>(false) && final(self).contents() == old(
                    self,
                ).contents(),
                None => final(self).contents() == old(self).contents() && (removed matches Err(e) && main_part_error(
                    old(self).contents(),
                    main_part_unreadable(old(self).contents()),
                    e,
                    |e: OfficeError| e is InvalidAiPolicy,
                )),
            },
            final(self).origin() == old(self).origin(),
    {
        let part = PartName::new(DOCUMENT_XML);
        let (found, updated) = rewrite_hidden_policy(self.package.read_part(&part)?, None)?;
        if found {
            self.package.write_part(part, updated);
        }
        Ok(found)
    }

    fn validate_policy(&self) -> (done: Result<(), OfficeError>)
        ensures
            done is Ok <==> (package_policy_text(self.contents()) matches Some(Some(t)) && parsed_prompt(
                t.skip(POLICY_PREFIX@.len() as int),
            ) is Some),
            done matches Err(e) ==> if package_policy_text(self.contents()) is None {
                main_part_error(
                    self.contents(),
                    policy_reader_fails(self.contents()[document_key()]),
                    e,
                    |e: OfficeError| e is InvalidAiPolicy,
                )
            } else {
                e is InvalidAiPolicy
            },
    {
        match self.policy()? {
            Some(_) => Ok(()),
            None => Err(OfficeError::InvalidAiPolicy(String::from_str("document has no AI policy"))),
        }
    }
}

} // verus!
