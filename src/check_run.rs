//! A whole i18n check: the collected keys against the loaded dictionaries.
use vstd::prelude::*;
use vstd::string::StringExecFns;

use crate::checker::{check_all, Diagnostic, Severity};
use crate::dictionary::DictionarySet;
use crate::locale::Locale;
use crate::text::owned;

verus! {

/// Where a check looks and what it looks for.
#[derive(Debug, Clone)]
pub struct CheckConfig {
    /// Directory of the dictionaries.
    pub dict_dir: String,
    /// Source directories to scan.
    pub src_dirs: Vec<String>,
    /// File extensions to scan.
    pub extensions: Vec<String>,
    /// Names of the translation function.
    pub function_names: Vec<String>,
    /// Locale to fall back to.
    pub default_locale: Option<String>,
}

impl Default for CheckConfig {
    /// Dictionaries in `content/i18n`, sources in `src`, script and
    /// Markdown files, `t` and `$t`, English as default.
    fn default() -> (r: CheckConfig)
        ensures
            r.dict_dir@ == "content/i18n"@,
            r.src_dirs@.len() == 1,
            r.extensions@.len() == 6,
            r.function_names@.len() == 2,
            r.default_locale is Some,
    {
        CheckConfig {
            dict_dir: owned("content/i18n"),
            src_dirs: vec![owned("src")],
            extensions: vec![owned("ts"), owned("tsx"), owned("js"), owned("jsx"), owned("md"), owned("mdx")],
            function_names: vec![owned("t"), owned("$t")],
            default_locale: Some(owned("en")),
        }
    }
}

/// The outcome of a check.
#[derive(Debug)]
pub struct CheckResult {
    pub diagnostics: Vec<Diagnostic>,
    pub used_keys: Vec<String>,
    pub error_count: usize,
    pub warning_count: usize,
}

/// Number of diagnostics of severity `sev` among `d`.
pub open spec fn count_severity(d: Seq<Diagnostic>, sev: Severity) -> nat
    decreases d.len(),
{
    if d.len() == 0 {
        0
    } else {
        count_severity(d.drop_last(), sev) + if d.last().severity == sev {
            1nat
        } else {
            0nat
        }
    }
}

fn count(d: &Vec<Diagnostic>, sev: Severity) -> (r: usize)
    ensures
        r == count_severity(d@, sev),
{
    let mut n: usize = 0;
    let mut i: usize = 0;
    while i < d.len()
        invariant
            i <= d@.len(),
            n == count_severity(d@.subrange(0, i as int), sev),
            n <= i,
        decreases d@.len() - i,
    {
        proof {
            assert(d@.subrange(0, i + 1).drop_last() =~= d@.subrange(0, i as int));
        }
        if d[i].severity == sev {
            n = n + 1;
        }
        i = i + 1;
    }
    proof {
        assert(d@.subrange(0, d@.len() as int) =~= d@);
    }
    n
}

/// Runs every check of the keys used in the sources against the
/// dictionaries, after making the configured default locale the fallback
/// when it is a valid tag, and counts errors and warnings.
pub fn check(config: &CheckConfig, used_keys: Vec<String>, dict_set: DictionarySet) -> (r: CheckResult)
    requires
        dict_set.wf(),
    ensures
        r.used_keys@ == used_keys@,
        r.error_count == count_severity(r.diagnostics@, Severity::Error),
        r.warning_count == count_severity(r.diagnostics@, Severity::Warning),
{
    let mut set = dict_set;
    match &config.default_locale {
        Some(tag) => match Locale::new(tag.as_str()) {
            Ok(locale) => set.set_default_locale(locale),
            Err(_) => {},
        },
        None => {},
    }
    let diagnostics = check_all(&used_keys, &set);
    let error_count = count(&diagnostics, Severity::Error);
    let warning_count = count(&diagnostics, Severity::Warning);
    CheckResult { diagnostics, used_keys, error_count, warning_count }
}

/// How diagnostics are printed.
#[derive(Debug, Clone, Copy, PartialEq, Eq, Structural)]
pub enum OutputFormat {
    Text,
    Json,
}

/// A diagnostic with its severity written out, ready to serialize.
#[derive(Debug, Clone)]
pub struct SerializableDiagnostic {
    pub severity: String,
    pub message: String,
    pub key: Option<String>,
    pub locale: Option<String>,
}

/// The name of a severity.
pub fn severity_name(s: Severity) -> (r: &'static str) {
    match s {
        Severity::Error => "error",
        Severity::Warning => "warning",
        Severity::Info => "info",
    }
}

fn copy_opt(s: &Option<String>) -> (r: Option<String>)
    ensures
        r is Some <==> s is Some,
        r matches Some(v) ==> v@ == s->Some_0@,
{
    match s {
        Some(v) => Some(owned(v.as_str())),
        None => None,
    }
}

impl SerializableDiagnostic {
    /// The serializable form of `d`.
    pub fn of(d: &Diagnostic) -> (r: SerializableDiagnostic)
        ensures
            r.message@ == d.message@,
            r.key is Some <==> d.key is Some,
            r.locale is Some <==> d.locale is Some,
    {
        SerializableDiagnostic {
            severity: owned(severity_name(d.severity)),
            message: owned(d.message.as_str()),
            key: copy_opt(&d.key),
            locale: copy_opt(&d.locale),
        }
    }
}

impl Diagnostic {
    /// `[level] message (key: k) (locale: l)`.
    pub fn to_display_string(&self) -> (r: String) {
        let mut t = owned("[");
        t.append(severity_name(self.severity));
        t.append("] ");
        t.append(self.message.as_str());
        match &self.key {
            Some(k) => {
                t.append(" (key: ");
                t.append(k.as_str());
                t.append(")");
            },
            None => {},
        }
        match &self.locale {
            Some(l) => {
                t.append(" (locale: ");
                t.append(l.as_str());
                t.append(")");
            },
            None => {},
        }
        t
    }
}

/// The diagnostics as text, one per line.
pub fn format_diagnostics_text(diagnostics: &Vec<Diagnostic>) -> (r: String)
    ensures
        diagnostics@.len() == 0 ==> r@.len() == 0,
{
    let mut out = String::new();
    let mut i: usize = 0;
    while i < diagnostics.len()
        invariant
            i <= diagnostics@.len(),
            i == 0 ==> out@.len() == 0,
        decreases diagnostics@.len() - i,
    {
        if i > 0 {
            out.append("\n");
        }
        out.append(diagnostics[i].to_display_string().as_str());
        i = i + 1;
    }
    out
}

} // verus!
