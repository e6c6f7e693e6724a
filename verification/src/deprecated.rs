//! The attribute fallback resolver: the "must use" marker and the
//! "deprecated" note are read from the declaration's structured
//! attributes, independently of the comment directives. Three legacy
//! deprecation syntaxes are recognized, in a fixed precedence.

use vstd::prelude::*;

use syn::parse::Parser;

use crate::text::str_eq;

verus! {

use vstd::string::StringExecFns;

/// What the external syntax-tree reader reports of one declaration's
/// structured attributes: whether a bare must-use marker is present,
/// the note text of a `name = "value"` deprecation attribute if one
/// exists, whether a bare deprecation marker is present, and the raw
/// argument text of a multi-field deprecation attribute if one exists.
#[derive(Debug, Clone)]
pub struct DeclAttrs {
    pub must_use_word: bool,
    pub deprecated_value: Option<String>,
    pub deprecated_word: bool,
    pub deprecated_args: Option<String>,
}

/// The mathematical shape of a [`DeclAttrs`].
pub struct DeclAttrsView {
    pub must_use_word: bool,
    pub deprecated_value: Option<Seq<char>>,
    pub deprecated_word: bool,
    pub deprecated_args: Option<Seq<char>>,
}

impl View for DeclAttrs {
    type V = DeclAttrsView;

    open spec fn view(&self) -> DeclAttrsView {
        DeclAttrsView {
            must_use_word: self.must_use_word,
            deprecated_value: self.deprecated_value.deep_view(),
            deprecated_word: self.deprecated_word,
            deprecated_args: self.deprecated_args.deep_view(),
        }
    }
}

/// A fault met while resolving one declaration's annotations. Each
/// variant carries what its message needs; [`LoadError::message`]
/// renders the text.
#[derive(Debug, Clone)]
pub enum LoadError {
    /// A directive line held more than one `=` separator; the payload is
    /// the full offending line.
    MalformedDirective(String),
    /// The multi-field deprecation attribute's argument list did not
    /// parse; the payload is the parser's report.
    DeprecatedUnparseable(String),
    /// The multi-field deprecation attribute has no `note` field.
    DeprecatedNoteMissing,
    /// The `note` field is not a string literal.
    DeprecatedNoteNotString,
}

/// The mathematical shape of a [`LoadError`].
pub enum LoadErrorView {
    MalformedDirective(Seq<char>),
    DeprecatedUnparseable(Seq<char>),
    DeprecatedNoteMissing,
    DeprecatedNoteNotString,
}

impl View for LoadError {
    type V = LoadErrorView;

    open spec fn view(&self) -> LoadErrorView {
        match self {
            LoadError::MalformedDirective(line) => LoadErrorView::MalformedDirective(line@),
            LoadError::DeprecatedUnparseable(report) => LoadErrorView::DeprecatedUnparseable(
                report@,
            ),
            LoadError::DeprecatedNoteMissing => LoadErrorView::DeprecatedNoteMissing,
            LoadError::DeprecatedNoteNotString => LoadErrorView::DeprecatedNoteNotString,
        }
    }
}

pub open spec fn message_view(e: LoadErrorView) -> Seq<char> {
    match e {
        LoadErrorView::MalformedDirective(line) => "Couldn't parse "@ + line + "."@,
        LoadErrorView::DeprecatedUnparseable(report) => "Couldn't parse deprecated attribute: "@
            + report,
        LoadErrorView::DeprecatedNoteMissing => "Couldn't parse deprecated attribute: no `note` field"@,
        LoadErrorView::DeprecatedNoteNotString => "deprecated attribute must be a string"@,
    }
}

impl LoadError {
    /// The fault's message text.
    pub fn message(&self) -> (r: String)
        ensures
            r@ == message_view(self@),
    {
        match self {
            LoadError::MalformedDirective(line) => {
                let mut s = "Couldn't parse ".to_owned();
                s.append(line.as_str());
                s.append(".");
                s
            },
            LoadError::DeprecatedUnparseable(report) => {
                let mut s = "Couldn't parse deprecated attribute: ".to_owned();
                s.append(report.as_str());
                s
            },
            LoadError::DeprecatedNoteMissing => "Couldn't parse deprecated attribute: no `note` field".to_owned(),
            LoadError::DeprecatedNoteNotString => "deprecated attribute must be a string".to_owned(),
        }
    }
}

/// What parsing a multi-field attribute argument list yields: on success
/// the fields in order, each as its name beside the value of its string
/// literal (`None` when the literal is not a string); on failure the
/// parser's report.
pub uninterp spec fn dep_fields_spec(args: Seq<char>) -> Result<
    Seq<(Seq<char>, Option<Seq<char>>)>,
    Seq<char>,
>;

/// Relies on syn's `Punctuated::<MetaNameValue, Comma>::parse_terminated`
/// run over a string: the outcome is a function of the text alone. Each
/// parsed pair is reported as its path's identifier (empty when the path
/// is not a bare identifier) beside its literal's value when that literal
/// is a string, `None` otherwise; a parse failure is reported as the
/// error's display text.
#[verifier::external_body]
fn parse_meta_fields(args: &str) -> (r: Result<Vec<(String, Option<String>)>, String>)
    ensures
        match r {
            Ok(fields) => dep_fields_spec(args@) == Ok::<_, Seq<char>>(fields.deep_view()),
            Err(report) => dep_fields_spec(args@) == Err::<Seq<(Seq<char>, Option<Seq<char>>)>, _>(
                report@,
            ),
        },
{
    let parser = syn::punctuated::Punctuated::<syn::MetaNameValue, syn::token::Comma>::parse_terminated;
    match parser.parse_str(args) {
        Ok(fields) => Ok(fields.into_iter().map(|field| (
            field.path.get_ident().map(|i| i.to_string()).unwrap_or(String::new()),
            match field.lit {
                syn::Lit::Str(text) => Some(text.value()),
                _ => None,
            },
        )).collect()),
        Err(e) => Err(e.to_string()),
    }
}

pub open spec fn note_chars() -> Seq<char> {
    seq!['n', 'o', 't', 'e']
}

/// The first field named `note`, if any.
pub open spec fn find_note_spec(fields: Seq<(Seq<char>, Option<Seq<char>>)>) -> Option<
    Option<Seq<char>>,
>
    decreases fields.len(),
{
    if fields.len() == 0 {
        None
    } else if fields[0].0 == note_chars() {
        Some(fields[0].1)
    } else {
        find_note_spec(fields.drop_first())
    }
}

/// The note a parsed field list resolves to: the first `note` field's
/// string text; a fault when no field is named `note`, or when the first
/// one is not a string literal.
pub open spec fn note_result_spec(fields: Seq<(Seq<char>, Option<Seq<char>>)>) -> Result<
    Seq<char>,
    LoadErrorView,
> {
    match find_note_spec(fields) {
        None => Err(LoadErrorView::DeprecatedNoteMissing),
        Some(None) => Err(LoadErrorView::DeprecatedNoteNotString),
        Some(Some(text)) => Ok(text),
    }
}

/// Reads the deprecation note out of a parsed multi-field argument list.
pub fn note_from_fields(fields: &Vec<(String, Option<String>)>) -> (r: Result<String, LoadError>)
    ensures
        match r {
            Ok(text) => note_result_spec(fields.deep_view()) == Ok::<_, LoadErrorView>(text@),
            Err(e) => note_result_spec(fields.deep_view()) == Err::<Seq<char>, _>(e@),
        },
{
    let ghost dv = fields.deep_view();
    let n = fields.len();
    let mut i: usize = 0;
    proof {
        assert(dv.skip(0) =~= dv);
    }
    while i < n
        invariant
            i <= n,
            n == fields@.len(),
            dv == fields.deep_view(),
            find_note_spec(dv) == find_note_spec(dv.skip(i as int)),
        decreases n - i,
    {
        proof {
            reveal_strlit("note");
            assert("note"@ =~= note_chars());
            assert(dv.skip(i as int)[0] == dv[i as int]);
        }
        let hit = str_eq(fields[i].0.as_str(), "note");
        if hit {
            match &fields[i].1 {
                Some(text) => {
                    return Ok(text.clone());
                },
                None => {
                    return Err(LoadError::DeprecatedNoteNotString);
                },
            }
        }
        proof {
            assert(dv.skip(i as int).drop_first() =~= dv.skip(i as int + 1));
        }
        i = i + 1;
    }
    proof {
        assert(dv.skip(n as int).len() == 0);
    }
    Err(LoadError::DeprecatedNoteMissing)
}

/// The deprecation note one declaration's attributes resolve to, by the
/// fixed precedence: an explicit `name = "value"` note first, then a bare
/// marker (note present but empty), then the multi-field form's `note`
/// field; absent when no form matches.
pub open spec fn dep_note_spec(a: DeclAttrsView) -> Result<Option<Seq<char>>, LoadErrorView> {
    match a.deprecated_value {
        Some(note) => Ok(Some(note)),
        None => if a.deprecated_word {
            Ok(Some(Seq::<char>::empty()))
        } else {
            match a.deprecated_args {
                Some(args) => match dep_fields_spec(args) {
                    Err(report) => Err(LoadErrorView::DeprecatedUnparseable(report)),
                    Ok(fields) => match note_result_spec(fields) {
                        Ok(text) => Ok(Some(text)),
                        Err(e) => Err(e),
                    },
                },
                None => Ok(None),
            }
        },
    }
}

/// Resolves the deprecation note from the declaration's attributes.
pub fn resolve_deprecated(attrs: &DeclAttrs) -> (r: Result<Option<String>, LoadError>)
    ensures
        match r {
            Ok(note) => dep_note_spec(attrs@) == Ok::<_, LoadErrorView>(note.deep_view()),
            Err(e) => dep_note_spec(attrs@) == Err::<Option<Seq<char>>, _>(e@),
        },
{
    match &attrs.deprecated_value {
        Some(note) => Ok(Some(note.clone())),
        None => if attrs.deprecated_word {
            Ok(Some(String::new()))
        } else {
            match &attrs.deprecated_args {
                Some(args) => match parse_meta_fields(args.as_str()) {
                    Err(report) => Err(LoadError::DeprecatedUnparseable(report)),
                    Ok(fields) => match note_from_fields(&fields) {
                        Ok(text) => Ok(Some(text)),
                        Err(e) => Err(e),
                    },
                },
                None => Ok(None),
            }
        },
    }
}

} // verus!
