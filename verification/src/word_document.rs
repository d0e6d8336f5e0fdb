//! Word-processing documents in general, whatever their format.
use crate::docx::{main_part_error, main_part_unreadable, text_replaced, DocxDocument};
use crate::error::OfficeError;
use crate::replacement::CaseMatching;
use vstd::prelude::*;

verus! {

/// Operations on word-processing documents.
pub trait WordDocument: crate::docx::OfficeDocument {
    /// Replaces all occurrences of `search` with `replacement`, ignoring
    /// letter case when asked; the number of replacements.
    fn replace_text(&mut self, search: &str, replacement: &str, ignore_case: bool) -> Result<usize, OfficeError>;
}

impl WordDocument for DocxDocument {
    fn replace_text(&mut self, search: &str, replacement: &str, ignore_case: bool) -> (count: Result<
        usize,
        OfficeError,
    >)
        ensures
            ({
                let case_matching = if ignore_case {
                    CaseMatching::UnicodeInsensitive
                } else {
                    CaseMatching::Sensitive
                };
                match text_replaced(old(self).contents(), search@, replacement@, case_matching) {
                    Some((n, contents)) => count matches Ok(c) && c == n && final(self).contents() == contents,
                    None => final(self).contents() == old(self).contents() && (count matches Err(e)
                        && main_part_error(
                        old(self).contents(),
                        main_part_unreadable(old(self).contents()),
                        e,
                        |e: OfficeError| e is InvalidDocument,
                    )),
                }
            }),
            final(self).origin() == old(self).origin(),
    {
        let case_matching = if ignore_case {
            CaseMatching::UnicodeInsensitive
        } else {
            CaseMatching::Sensitive
        };
        self.replace_with(search, replacement, case_matching)
    }
}

} // verus!
