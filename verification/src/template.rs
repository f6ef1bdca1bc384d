//! The values that the scaffolder fills its templates with, and the rules
//! they have to meet before anything is rendered.

use crate::semver::{is_semver, semver_ok};
use crate::text::{chars_of, joined, trimmed, trimmed_text};
use vstd::prelude::*;

verus! {

/// An ASCII letter.
pub open spec fn is_letter(c: char) -> bool {
    ('a' as u32 <= c as u32 <= 'z' as u32) || ('A' as u32 <= c as u32 <= 'Z' as u32)
}

/// An ASCII digit.
pub open spec fn is_digit(c: char) -> bool {
    '0' as u32 <= c as u32 <= '9' as u32
}

/// A letter, a digit or an underscore.
pub open spec fn is_word_char(c: char) -> bool {
    is_letter(c) || is_digit(c) || c == '_'
}

/// A letter, a digit, an underscore or a hyphen.
pub open spec fn is_id_char(c: char) -> bool {
    is_word_char(c) || c == '-'
}

/// A name that can stand as a Rust file and module name: a letter, then
/// letters, digits and underscores.
pub open spec fn is_filename(s: Seq<char>) -> bool {
    &&& s.len() >= 1
    &&& is_letter(s[0])
    &&& forall|i: int| 1 <= i < s.len() ==> is_word_char(s[i])
}

/// A revision identifier: one or more letters, digits, underscores and
/// hyphens.
pub open spec fn is_revision_id(s: Seq<char>) -> bool {
    &&& s.len() >= 1
    &&& forall|i: int| 0 <= i < s.len() ==> is_id_char(s[i])
}

/// One or more letters, digits and underscores.
pub open spec fn is_plain_word(s: Seq<char>) -> bool {
    &&& s.len() >= 1
    &&& forall|i: int| 0 <= i < s.len() ==> is_word_char(s[i])
}

/// Two digits at `at` and `at + 1`.
pub open spec fn two_digits(s: Seq<char>, at: int) -> bool {
    is_digit(s[at]) && is_digit(s[at + 1])
}

/// A date `YYYY-MM-DD` in the first ten characters.
pub open spec fn has_date(s: Seq<char>) -> bool {
    &&& two_digits(s, 0)
    &&& two_digits(s, 2)
    &&& s[4] == '-'
    &&& two_digits(s, 5)
    &&& s[7] == '-'
    &&& two_digits(s, 8)
}

/// A time `HH:MM:SS` after a blank or a `T`, in the characters from the
/// eleventh on.
pub open spec fn has_time(s: Seq<char>) -> bool {
    &&& s[10] == ' ' || s[10] == 'T'
    &&& two_digits(s, 11)
    &&& s[13] == ':'
    &&& two_digits(s, 14)
    &&& s[16] == ':'
    &&& two_digits(s, 17)
}

/// An ISO-8601 date, with or without a time: `YYYY-MM-DD`,
/// `YYYY-MM-DD HH:MM:SS` or `YYYY-MM-DDTHH:MM:SS`.
pub open spec fn is_iso_date(s: Seq<char>) -> bool {
    ||| s.len() == 10 && has_date(s)
    ||| s.len() == 19 && has_date(s) && has_time(s)
}

pub(crate) fn letter(c: char) -> (yes: bool)
    ensures
        yes == is_letter(c),
{
    let code = c as u32;
    (code >= 'a' as u32 && code <= 'z' as u32) || (code >= 'A' as u32 && code <= 'Z' as u32)
}

pub(crate) fn digit(c: char) -> (yes: bool)
    ensures
        yes == is_digit(c),
{
    let code = c as u32;
    code >= '0' as u32 && code <= '9' as u32
}

fn word_char(c: char) -> (yes: bool)
    ensures
        yes == is_word_char(c),
{
    letter(c) || digit(c) || c == '_'
}

fn id_char(c: char) -> (yes: bool)
    ensures
        yes == is_id_char(c),
{
    word_char(c) || c == '-'
}

/// Whether the text can stand as a Rust file and module name.
pub fn filename_ok(text: &str) -> (ok: bool)
    ensures
        ok == is_filename(text@),
{
    let chars = chars_of(text);
    if chars.len() == 0 || !letter(chars[0]) {
        return false;
    }
    let mut i: usize = 1;
    while i < chars.len()
        invariant
            chars@ == text@,
            1 <= i <= chars@.len(),
            forall|k: int| 1 <= k < i ==> is_word_char(chars@[k]),
        decreases chars@.len() - i,
    {
        if !word_char(chars[i]) {
            assert(!is_word_char(text@[i as int]));
            return false;
        }
        i = i + 1;
    }
    true
}

/// Whether the text is a revision identifier.
pub fn revision_id_ok(text: &str) -> (ok: bool)
    ensures
        ok == is_revision_id(text@),
{
    let chars = chars_of(text);
    if chars.len() == 0 {
        return false;
    }
    let mut i: usize = 0;
    while i < chars.len()
        invariant
            chars@ == text@,
            i <= chars@.len(),
            forall|k: int| 0 <= k < i ==> is_id_char(chars@[k]),
        decreases chars@.len() - i,
    {
        if !id_char(chars[i]) {
            assert(!is_id_char(text@[i as int]));
            return false;
        }
        i = i + 1;
    }
    true
}

/// Whether the text is one or more letters, digits and underscores.
pub fn plain_word_ok(text: &str) -> (ok: bool)
    ensures
        ok == is_plain_word(text@),
{
    let chars = chars_of(text);
    if chars.len() == 0 {
        return false;
    }
    let mut i: usize = 0;
    while i < chars.len()
        invariant
            chars@ == text@,
            i <= chars@.len(),
            forall|k: int| 0 <= k < i ==> is_word_char(chars@[k]),
        decreases chars@.len() - i,
    {
        if !word_char(chars[i]) {
            assert(!is_word_char(text@[i as int]));
            return false;
        }
        i = i + 1;
    }
    true
}

fn two_digits_at(chars: &Vec<char>, at: usize) -> (ok: bool)
    requires
        at + 1 < chars@.len(),
    ensures
        ok == two_digits(chars@, at as int),
{
    let n = chars.len();
    digit(chars[at]) && digit(chars[at + 1])
}

/// Whether the text is an ISO-8601 date, with or without a time.
pub fn iso_date_ok(text: &str) -> (ok: bool)
    ensures
        ok == is_iso_date(text@),
{
    let chars = chars_of(text);
    let n = chars.len();
    if n != 10 && n != 19 {
        return false;
    }
    let date = two_digits_at(&chars, 0) && two_digits_at(&chars, 2) && chars[4] == '-'
        && two_digits_at(&chars, 5) && chars[7] == '-' && two_digits_at(&chars, 8);
    if !date {
        return false;
    }
    if n == 10 {
        return true;
    }
    (chars[10] == ' ' || chars[10] == 'T') && two_digits_at(&chars, 11) && chars[13] == ':'
        && two_digits_at(&chars, 14) && chars[16] == ':' && two_digits_at(&chars, 17)
}

/// Why a builder did not yield its value.
#[derive(Debug)]
pub enum BuilderError {
    /// The values do not meet the rules: the message names the first fault.
    ValidationError(String),
}

impl BuilderError {
    /// The error as a sentence.
    pub open spec fn sentence(self) -> Seq<char> {
        match self {
            BuilderError::ValidationError(message) => message@,
        }
    }

    /// The error as a sentence.
    pub fn to_string(&self) -> (text: String)
        ensures
            text@ == self.sentence(),
    {
        match self {
            BuilderError::ValidationError(message) => message.clone(),
        }
    }
}

/// The text of a value that is there.
fn text_or_empty(value: &Option<String>) -> (text: String)
    ensures
        value matches Some(given) ==> text@ == given@,
{
    match value {
        Some(given) => given.clone(),
        None => String::new(),
    }
}

/// The values of a revision file: the file's name, the revision's
/// identifier, date and message, and the identifier of its parent.
#[derive(Debug)]
pub struct RevisionTemplate {
    pub filename: String,
    pub message: Option<String>,
    pub date: String,
    pub revision_id: String,
    pub down_revision_id: Option<String>,
}

/// Collects the values of a `RevisionTemplate`.
#[derive(Debug)]
pub struct RevisionTemplateBuilder {
    pub filename: Option<String>,
    pub message: Option<Option<String>>,
    pub date: Option<String>,
    pub revision_id: Option<String>,
    pub down_revision_id: Option<Option<String>>,
}

/// The pattern that a file name has to match, as the error message cites it.
pub open spec fn filename_pattern() -> Seq<char> {
    "^[a-zA-Z][a-zA-Z0-9_]*$"@
}

/// What is wrong with the text of a file name, if anything.
pub open spec fn filename_text_fault(text: Seq<char>) -> Option<Seq<char>> {
    if is_filename(text) {
        None
    } else {
        Some("Invalid Rust filename `"@ + text + "`. It must match `"@ + filename_pattern() + "`"@)
    }
}

/// What is wrong with a file name, if anything.
pub open spec fn filename_fault(filename: Option<String>) -> Option<Seq<char>> {
    match filename {
        None => Some("filename is required"@),
        Some(text) => filename_text_fault(text@),
    }
}

/// What is wrong with the text of a date, if anything.
pub open spec fn date_text_fault(text: Seq<char>) -> Option<Seq<char>> {
    if is_iso_date(text) {
        None
    } else {
        Some(
            "date `"@ + text
                + "` must be ISO-8601: YYYY-MM-DD, YYYY-MM-DD HH:MM:SS, or YYYY-MM-DDT HH:MM:SS"@,
        )
    }
}

/// What is wrong with a date, if anything.
pub open spec fn date_fault(date: Option<String>) -> Option<Seq<char>> {
    match date {
        None => Some("date is required"@),
        Some(text) => date_text_fault(text@),
    }
}

/// What is wrong with an identifier in the field called `field`.
pub open spec fn id_fault(field: Seq<char>, text: Seq<char>) -> Option<Seq<char>> {
    if is_revision_id(text) {
        None
    } else {
        Some(
            field + " `"@ + text
                + "` may only contain letters, numbers, dashes or underscores"@,
        )
    }
}

/// What is wrong with a revision identifier, if anything.
pub open spec fn revision_id_fault(revision_id: Option<String>) -> Option<Seq<char>> {
    match revision_id {
        None => Some("revision_id is required"@),
        Some(text) => id_fault("revision_id"@, text@),
    }
}

/// What is wrong with the identifier of the parent, if anything.
pub open spec fn down_revision_id_fault(down: Option<Option<String>>) -> Option<Seq<char>> {
    match down {
        Some(Some(text)) => id_fault("down_revision_id"@, text@),
        _ => None,
    }
}

/// What is wrong with the text of a message, if anything: it must hold more
/// than white space.
pub open spec fn message_text_fault(text: Seq<char>) -> Option<Seq<char>> {
    if trimmed_text(text).len() == 0 {
        Some("message cannot be empty"@)
    } else {
        None
    }
}

/// What is wrong with a message, if anything: a message that is given must
/// hold more than white space.
pub open spec fn message_fault(message: Option<Option<String>>) -> Option<Seq<char>> {
    match message {
        Some(Some(text)) => message_text_fault(text@),
        _ => None,
    }
}

fn check_id(field: &str, text: &str) -> (result: Result<(), String>)
    ensures
        match result {
            Ok(_) => id_fault(field@, text@) is None,
            Err(message) => id_fault(field@, text@) == Some(message@),
        },
{
    if revision_id_ok(text) {
        Ok(())
    } else {
        let mut message = joined(field, " `");
        message.append(text);
        message.append("` may only contain letters, numbers, dashes or underscores");
        Err(message)
    }
}

impl RevisionTemplate {
    /// A builder without any value.
    pub fn builder() -> (builder: RevisionTemplateBuilder)
        ensures
            builder.filename is None,
            builder.message is None,
            builder.date is None,
            builder.revision_id is None,
            builder.down_revision_id is None,
    {
        RevisionTemplateBuilder {
            filename: None,
            message: None,
            date: None,
            revision_id: None,
            down_revision_id: None,
        }
    }
}

impl RevisionTemplateBuilder {
    /// The first fault among the values, in the order file name, date,
    /// revision identifier, parent identifier, message.
    pub open spec fn fault(self) -> Option<Seq<char>> {
        if filename_fault(self.filename) is Some {
            filename_fault(self.filename)
        } else if date_fault(self.date) is Some {
            date_fault(self.date)
        } else if revision_id_fault(self.revision_id) is Some {
            revision_id_fault(self.revision_id)
        } else if down_revision_id_fault(self.down_revision_id) is Some {
            down_revision_id_fault(self.down_revision_id)
        } else {
            message_fault(self.message)
        }
    }

    /// Sets the file name.
    pub fn filename(&mut self, value: &str) -> (same: &mut RevisionTemplateBuilder)
        ensures
            same.filename matches Some(text) && text@ == value@,
            same.message == old(self).message,
            same.date == old(self).date,
            same.revision_id == old(self).revision_id,
            same.down_revision_id == old(self).down_revision_id,
            *final(self) == *final(same),
    {
        self.filename = Some(value.to_string());
        self
    }

    /// Sets the message.
    pub fn message(&mut self, value: &str) -> (same: &mut RevisionTemplateBuilder)
        ensures
            same.message matches Some(Some(text)) && text@ == value@,
            same.filename == old(self).filename,
            same.date == old(self).date,
            same.revision_id == old(self).revision_id,
            same.down_revision_id == old(self).down_revision_id,
            *final(self) == *final(same),
    {
        self.message = Some(Some(value.to_string()));
        self
    }

    /// Sets the date.
    pub fn date(&mut self, value: &str) -> (same: &mut RevisionTemplateBuilder)
        ensures
            same.date matches Some(text) && text@ == value@,
            same.filename == old(self).filename,
            same.message == old(self).message,
            same.revision_id == old(self).revision_id,
            same.down_revision_id == old(self).down_revision_id,
            *final(self) == *final(same),
    {
        self.date = Some(value.to_string());
        self
    }

    /// Sets the revision identifier.
    pub fn revision_id(&mut self, value: &str) -> (same: &mut RevisionTemplateBuilder)
        ensures
            same.revision_id matches Some(text) && text@ == value@,
            same.filename == old(self).filename,
            same.message == old(self).message,
            same.date == old(self).date,
            same.down_revision_id == old(self).down_revision_id,
            *final(self) == *final(same),
    {
        self.revision_id = Some(value.to_string());
        self
    }

    /// Sets the identifier of the parent revision.
    pub fn down_revision_id(&mut self, value: &str) -> (same: &mut RevisionTemplateBuilder)
        ensures
            same.down_revision_id matches Some(Some(text)) && text@ == value@,
            same.filename == old(self).filename,
            same.message == old(self).message,
            same.date == old(self).date,
            same.revision_id == old(self).revision_id,
            *final(self) == *final(same),
    {
        self.down_revision_id = Some(Some(value.to_string()));
        self
    }

    /// Checks the values against the rules, and reports the first fault.
    pub fn validate(&self) -> (result: Result<(), String>)
        ensures
            match result {
                Ok(_) => self.fault() is None,
                Err(message) => self.fault() == Some(message@),
            },
    {
        match &self.filename {
            Some(filename) => {
                if !filename_ok(filename.as_str()) {
                    let mut message = joined("Invalid Rust filename `", filename.as_str());
                    message.append("`. It must match `");
                    message.append("^[a-zA-Z][a-zA-Z0-9_]*$");
                    message.append("`");
                    return Err(message);
                }
            },
            None => {
                return Err("filename is required".to_string());
            },
        }
        match &self.date {
            Some(date) => {
                if !iso_date_ok(date.as_str()) {
                    let mut message = joined("date `", date.as_str());
                    message.append(
                        "` must be ISO-8601: YYYY-MM-DD, YYYY-MM-DD HH:MM:SS, or YYYY-MM-DDT HH:MM:SS",
                    );
                    return Err(message);
                }
            },
            None => {
                return Err("date is required".to_string());
            },
        }
        match &self.revision_id {
            Some(revision_id) => {
                match check_id("revision_id", revision_id.as_str()) {
                    Ok(_) => {},
                    Err(message) => {
                        return Err(message);
                    },
                }
            },
            None => {
                return Err("revision_id is required".to_string());
            },
        }
        match &self.down_revision_id {
            Some(Some(down)) => {
                match check_id("down_revision_id", down.as_str()) {
                    Ok(_) => {},
                    Err(message) => {
                        return Err(message);
                    },
                }
            },
            _ => {},
        }
        match &self.message {
            Some(Some(message)) => {
                if trimmed(message.as_str()).is_empty() {
                    return Err("message cannot be empty".to_string());
                }
            },
            _ => {},
        }
        Ok(())
    }

    /// The template of the collected values, where they meet the rules.
    pub fn build(&self) -> (result: Result<RevisionTemplate, BuilderError>)
        ensures
            result is Ok <==> self.fault() is None,
            result matches Ok(template) ==> {
                &&& template.filename@ == self.filename->0@
                &&& template.date@ == self.date->0@
                &&& template.revision_id@ == self.revision_id->0@
                &&& template.message == (match self.message {
                    Some(message) => message,
                    None => None,
                })
                &&& template.down_revision_id == (match self.down_revision_id {
                    Some(down) => down,
                    None => None,
                })
            },
            result matches Err(error) ==> error matches BuilderError::ValidationError(message)
                && self.fault() == Some(message@),
    {
        match self.validate() {
            Ok(_) => {},
            Err(message) => {
                return Err(BuilderError::ValidationError(message));
            },
        }
        let filename = text_or_empty(&self.filename);
        let date = text_or_empty(&self.date);
        let revision_id = text_or_empty(&self.revision_id);
        let message = match &self.message {
            Some(message) => message.clone(),
            None => None,
        };
        let down_revision_id = match &self.down_revision_id {
            Some(down) => down.clone(),
            None => None,
        };
        Ok(RevisionTemplate { filename, message, date, revision_id, down_revision_id })
    }
}

/// The values of the migrator file: the modules of the migrations it lists.
#[derive(Debug)]
pub struct MigratorTemplate {
    pub imports: Vec<String>,
}

/// Collects the values of a `MigratorTemplate`.
#[derive(Debug)]
pub struct MigratorTemplateBuilder {
    pub imports: Option<Vec<String>>,
}

impl MigratorTemplate {
    /// A builder without any value.
    pub fn builder() -> (builder: MigratorTemplateBuilder)
        ensures
            builder.imports is None,
    {
        MigratorTemplateBuilder { imports: None }
    }
}

impl MigratorTemplateBuilder {
    /// What is wrong with the values, if anything: the list of imports has to
    /// be given, and to hold at least one module.
    pub open spec fn fault(self) -> Option<Seq<char>> {
        match self.imports {
            None => Some("imports is required"@),
            Some(imports) => if imports@.len() == 0 {
                Some("You should at least define one migration."@)
            } else {
                None
            },
        }
    }

    /// Sets the list of imports.
    pub fn imports(&mut self, value: Vec<String>) -> (same: &mut MigratorTemplateBuilder)
        ensures
            same.imports == Some(value),
            *final(self) == *final(same),
    {
        self.imports = Some(value);
        self
    }

    /// Checks the values against the rules.
    pub fn validate(&self) -> (result: Result<(), String>)
        ensures
            match result {
                Ok(_) => self.fault() is None,
                Err(message) => self.fault() == Some(message@),
            },
    {
        match &self.imports {
            Some(imports) => {
                if imports.len() == 0 {
                    return Err("You should at least define one migration.".to_string());
                }
            },
            None => {
                return Err("imports is required".to_string());
            },
        }
        Ok(())
    }

    /// The template of the collected values, where they meet the rules.
    pub fn build(&self) -> (result: Result<MigratorTemplate, BuilderError>)
        ensures
            result is Ok <==> self.fault() is None,
            result matches Ok(template) ==> template.imports@ == self.imports->0@,
            result matches Err(error) ==> error matches BuilderError::ValidationError(message)
                && self.fault() == Some(message@),
    {
        match self.validate() {
            Ok(_) => {},
            Err(message) => {
                return Err(BuilderError::ValidationError(message));
            },
        }
        let imports = match &self.imports {
            Some(imports) => imports.clone(),
            None => Vec::new(),
        };
        Ok(MigratorTemplate { imports })
    }
}

/// The Rust edition of a new migration crate, unless another is set.
pub const DEFAULT_RUST_EDITION: &'static str = "2021";

/// The version of a new migration crate, unless another is set: the version
/// of this crate.
pub const DEFAULT_VERSION: &'static str = "0.1.0";

/// The name of a new migration crate, unless another is set.
pub const DEFAULT_PACKAGE_NAME: &'static str = "migration";

/// The values of the manifest of a migration crate.
#[derive(Debug)]
pub struct MigrationTemplate {
    pub rust_edition: String,
    pub version: String,
    pub package_name: String,
}

/// Collects the values of a `MigrationTemplate`.
#[derive(Debug)]
pub struct MigrationTemplateBuilder {
    pub rust_edition: Option<String>,
    pub version: Option<String>,
    pub package_name: Option<String>,
}

/// What is wrong with a value that was set, if anything: a value has to meet
/// the rule of its field, and is cited after the field's label where it does
/// not.
pub open spec fn set_fault(value: Option<String>, meets: bool, label: Seq<char>) -> Option<
    Seq<char>,
> {
    match value {
        Some(text) => if meets {
            None
        } else {
            Some(label + text@)
        },
        None => None,
    }
}

/// The text of a value that was set.
pub open spec fn set_text(value: Option<String>) -> Seq<char> {
    match value {
        Some(text) => text@,
        None => Seq::empty(),
    }
}

/// The value of a field: what was set, or the default.
pub open spec fn or_default(value: Option<String>, default: Seq<char>) -> Seq<char> {
    match value {
        Some(text) => text@,
        None => default,
    }
}

fn value_or(value: &Option<String>, default: &str) -> (text: String)
    ensures
        text@ == or_default(*value, default@),
{
    match value {
        Some(text) => text.clone(),
        None => default.to_string(),
    }
}

impl MigrationTemplate {
    /// A builder without any value.
    pub fn builder() -> (builder: MigrationTemplateBuilder)
        ensures
            builder.rust_edition is None,
            builder.version is None,
            builder.package_name is None,
    {
        MigrationTemplateBuilder { rust_edition: None, version: None, package_name: None }
    }
}

impl MigrationTemplateBuilder {
    /// The first fault among the values that were set, in the order version,
    /// package name, edition: the version has to be a semantic version, the
    /// other two have to be plain words.
    pub open spec fn fault(self) -> Option<Seq<char>> {
        let version = set_fault(
            self.version,
            is_semver(set_text(self.version)),
            "Invalid version: "@,
        );
        let package_name = set_fault(
            self.package_name,
            is_plain_word(set_text(self.package_name)),
            "Invalid package_name: "@,
        );
        let rust_edition = set_fault(
            self.rust_edition,
            is_plain_word(set_text(self.rust_edition)),
            "Invalid rust edition: "@,
        );
        if version is Some {
            version
        } else if package_name is Some {
            package_name
        } else {
            rust_edition
        }
    }

    /// Sets the Rust edition.
    pub fn rust_edition(&mut self, value: &str) -> (same: &mut MigrationTemplateBuilder)
        ensures
            same.rust_edition matches Some(text) && text@ == value@,
            same.version == old(self).version,
            same.package_name == old(self).package_name,
            *final(self) == *final(same),
    {
        self.rust_edition = Some(value.to_string());
        self
    }

    /// Sets the version.
    pub fn version(&mut self, value: &str) -> (same: &mut MigrationTemplateBuilder)
        ensures
            same.version matches Some(text) && text@ == value@,
            same.rust_edition == old(self).rust_edition,
            same.package_name == old(self).package_name,
            *final(self) == *final(same),
    {
        self.version = Some(value.to_string());
        self
    }

    /// Sets the package name.
    pub fn package_name(&mut self, value: &str) -> (same: &mut MigrationTemplateBuilder)
        ensures
            same.package_name matches Some(text) && text@ == value@,
            same.rust_edition == old(self).rust_edition,
            same.version == old(self).version,
            *final(self) == *final(same),
    {
        self.package_name = Some(value.to_string());
        self
    }

    /// Checks the values that were set against the rules, and reports the
    /// first fault.
    pub fn validate(&self) -> (result: Result<(), String>)
        ensures
            match result {
                Ok(_) => self.fault() is None,
                Err(message) => self.fault() == Some(message@),
            },
    {
        match &self.version {
            Some(version) => {
                if !semver_ok(version.as_str()) {
                    return Err(joined("Invalid version: ", version.as_str()));
                }
            },
            None => {},
        }
        match &self.package_name {
            Some(package_name) => {
                if !plain_word_ok(package_name.as_str()) {
                    return Err(joined("Invalid package_name: ", package_name.as_str()));
                }
            },
            None => {},
        }
        match &self.rust_edition {
            Some(rust_edition) => {
                if !plain_word_ok(rust_edition.as_str()) {
                    return Err(joined("Invalid rust edition: ", rust_edition.as_str()));
                }
            },
            None => {},
        }
        Ok(())
    }

    /// The template of the collected values, with the default for every
    /// value that was not set, where the values meet the rules.
    pub fn build(&self) -> (result: Result<MigrationTemplate, BuilderError>)
        ensures
            result is Ok <==> self.fault() is None,
            result matches Ok(template) ==> {
                &&& template.rust_edition@ == or_default(
                    self.rust_edition,
                    DEFAULT_RUST_EDITION@,
                )
                &&& template.version@ == or_default(self.version, DEFAULT_VERSION@)
                &&& template.package_name@ == or_default(self.package_name, DEFAULT_PACKAGE_NAME@)
            },
            result matches Err(error) ==> error matches BuilderError::ValidationError(message)
                && self.fault() == Some(message@),
    {
        match self.validate() {
            Ok(_) => {},
            Err(message) => {
                return Err(BuilderError::ValidationError(message));
            },
        }
        Ok(
            MigrationTemplate {
                rust_edition: value_or(&self.rust_edition, DEFAULT_RUST_EDITION),
                version: value_or(&self.version, DEFAULT_VERSION),
                package_name: value_or(&self.package_name, DEFAULT_PACKAGE_NAME),
            },
        )
    }
}

} // verus!
