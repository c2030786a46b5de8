//! Structured, dependency-free diagnostics for recoverable failures.

use vstd::prelude::*;

verus! {

/// The importance of a framework diagnostic.
#[derive(Clone, Copy, Debug, PartialEq, Eq, Structural, PartialOrd, Ord)]
pub enum DiagnosticSeverity {
    /// A recoverable condition that may deserve attention.
    Warning,
    /// A failed framework operation or invalid application input.
    Error,
}

impl DiagnosticSeverity {
    /// Returns the lower-case name of the severity.
    pub fn as_str(&self) -> (r: &'static str)
        ensures
            *self == DiagnosticSeverity::Warning ==> r@ == "warning"@,
            *self == DiagnosticSeverity::Error ==> r@ == "error"@,
    {
        proof {
            reveal_strlit("warning");
            reveal_strlit("error");
        }
        match self {
            DiagnosticSeverity::Warning => "warning",
            DiagnosticSeverity::Error => "error",
        }
    }
}

/// Structured information about a recoverable framework failure.
#[derive(Debug, PartialEq, Eq)]
pub struct Diagnostic {
    severity: DiagnosticSeverity,
    component: String,
    message: String,
}

/// The model of a [`Diagnostic`].
pub struct DiagnosticView {
    /// Severity.
    pub severity: DiagnosticSeverity,
    /// Producing component.
    pub component: Seq<char>,
    /// Human-readable message.
    pub message: Seq<char>,
}

impl View for Diagnostic {
    type V = DiagnosticView;

    closed spec fn view(&self) -> DiagnosticView {
        DiagnosticView { severity: self.severity, component: self.component@, message: self.message@ }
    }
}

impl Clone for Diagnostic {
    fn clone(&self) -> (r: Self)
        ensures
            r == *self,
    {
        Diagnostic {
            severity: self.severity,
            component: self.component.clone(),
            message: self.message.clone(),
        }
    }
}

impl Diagnostic {
    /// Creates a diagnostic with the supplied severity, component, and message.
    pub fn new(severity: DiagnosticSeverity, component: String, message: String) -> (r: Self)
        ensures
            r@ == (DiagnosticView { severity, component: component@, message: message@ }),
    {
        Diagnostic { severity, component, message }
    }

    /// Creates an error diagnostic.
    pub fn error(component: String, message: String) -> (r: Self)
        ensures
            r@ == (DiagnosticView {
                severity: DiagnosticSeverity::Error,
                component: component@,
                message: message@,
            }),
    {
        Self::new(DiagnosticSeverity::Error, component, message)
    }

    /// Creates a warning diagnostic.
    pub fn warning(component: String, message: String) -> (r: Self)
        ensures
            r@ == (DiagnosticView {
                severity: DiagnosticSeverity::Warning,
                component: component@,
                message: message@,
            }),
    {
        Self::new(DiagnosticSeverity::Warning, component, message)
    }

    /// Returns the diagnostic severity.
    pub fn severity(&self) -> (r: DiagnosticSeverity)
        ensures
            r == self@.severity,
    {
        self.severity
    }

    /// Returns the framework component that produced the diagnostic.
    pub fn component(&self) -> (r: &str)
        ensures
            r@ == self@.component,
    {
        self.component.as_str()
    }

    /// Returns the human-readable diagnostic message.
    pub fn message(&self) -> (r: &str)
        ensures
            r@ == self@.message,
    {
        self.message.as_str()
    }

    /// Returns the diagnostic as `severity [component]: message`.
    pub fn describe(&self) -> (r: String)
        ensures
            self@.severity == DiagnosticSeverity::Error ==> r@ == "error"@ + " ["@
                + self@.component + "]: "@ + self@.message,
            self@.severity == DiagnosticSeverity::Warning ==> r@ == "warning"@ + " ["@
                + self@.component + "]: "@ + self@.message,
    {
        let mut text = String::from_str(self.severity.as_str());
        text.append(" [");
        text.append(self.component.as_str());
        text.append("]: ");
        text.append(self.message.as_str());
        text
    }
}

/// Receives diagnostics emitted by Torn components.
///
/// Implement this trait to forward diagnostics to an application logger or a
/// test assertion. `Vec<Diagnostic>` collects them.
pub trait DiagnosticReporter {
    /// Receives one diagnostic.
    fn report(&mut self, diagnostic: &Diagnostic);
}

impl DiagnosticReporter for Vec<Diagnostic> {
    fn report(&mut self, diagnostic: &Diagnostic)
        ensures
            final(self)@ == old(self)@.push(*diagnostic),
    {
        self.push(diagnostic.clone());
    }
}

} // verus!
