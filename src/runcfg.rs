//! One benchmark configuration: which loading backend, how many
//! transformations, and how many input lines.
use vstd::prelude::*;
use crate::text::{nat_text, push_nat};

verus! {

/// The loading backend that a run exercises.
#[derive(Debug, Clone, Copy, PartialEq, Eq, Structural)]
pub enum Backend {
    Typescript,
    Polars,
    PolarsOneBlock,
    PolarsRusqlite,
    PolarsOneBlockRusqlite,
}

/// How many transformations the pipeline of a run applies.
#[derive(Debug, Clone, Copy, PartialEq, Eq, Structural)]
pub enum TransformAmount {
    Zero,
    Few,
    Many,
}

pub open spec fn backend_tag(b: Backend) -> Seq<char> {
    match b {
        Backend::Typescript => "ts"@,
        Backend::Polars => "pl"@,
        Backend::PolarsOneBlock => "plob"@,
        Backend::PolarsRusqlite => "plrs"@,
        Backend::PolarsOneBlockRusqlite => "plobrs"@,
    }
}

pub open spec fn transform_tag(t: TransformAmount) -> Seq<char> {
    match t {
        TransformAmount::Zero => "no"@,
        TransformAmount::Few => "so"@,
        TransformAmount::Many => "ma"@,
    }
}

impl Backend {
    /// Whether the backend runs on the columnar engine.
    pub fn use_polars_flag(&self) -> (r: bool)
        ensures
            r == (*self != Backend::Typescript),
    {
        match self {
            Backend::Typescript => false,
            _ => true,
        }
    }

    /// Whether the backend writes through the embedded database driver.
    pub fn use_rusqlite_flag(&self) -> (r: bool)
        ensures
            r == (*self == Backend::PolarsRusqlite || *self == Backend::PolarsOneBlockRusqlite),
    {
        match self {
            Backend::PolarsRusqlite | Backend::PolarsOneBlockRusqlite => true,
            _ => false,
        }
    }

    /// Short tag of the backend, used in output file names.
    pub fn example(&self) -> (r: &'static str)
        ensures
            r@ == backend_tag(*self),
    {
        match self {
            Backend::Typescript => "ts",
            Backend::Polars => "pl",
            Backend::PolarsOneBlock => "plob",
            Backend::PolarsRusqlite => "plrs",
            Backend::PolarsOneBlockRusqlite => "plobrs",
        }
    }
}

impl TransformAmount {
    /// Short tag of the amount, used in output file names.
    pub fn example(&self) -> (r: &'static str)
        ensures
            r@ == transform_tag(*self),
    {
        match self {
            TransformAmount::Zero => "no",
            TransformAmount::Few => "so",
            TransformAmount::Many => "ma",
        }
    }
}

/// The size tag of a run: its line count, or `all`.
pub open spec fn size_tag(n_lines: Option<usize>) -> Seq<char> {
    match n_lines {
        Option::Some(n) => nat_text(n as nat),
        Option::None => "all"@,
    }
}

/// `<backend>-<transformations>-<size>`, the label of a configuration.
pub open spec fn config_label(t: TransformAmount, b: Backend, n_lines: Option<usize>) -> Seq<char> {
    backend_tag(b) + "-"@ + transform_tag(t) + "-"@ + size_tag(n_lines)
}

/// Label of a configuration: `<backend>-<transformations>-<size>`.
pub fn config_label_text(t: TransformAmount, b: Backend, n_lines: Option<usize>) -> (r: String)
    ensures
        r@ == config_label(t, b, n_lines),
{
    let mut s = String::from_str(b.example());
    s.append("-");
    s.append(t.example());
    s.append("-");
    match n_lines {
        Option::Some(n) => push_nat(&mut s, n as u64),
        Option::None => s.append("all"),
    }
    s
}

/// Path of the database that a configuration writes, below `cwd`.
pub open spec fn destination_path(cwd: Seq<char>, t: TransformAmount, b: Backend, n_lines: Option<usize>) -> Seq<char> {
    cwd + "/out/"@ + config_label(t, b, n_lines) + ".sqlite"@
}

/// Name of the pipeline description file that a configuration runs.
pub open spec fn pipeline_file(t: TransformAmount, b: Backend) -> Seq<char> {
    (if b == Backend::PolarsOneBlock || b == Backend::PolarsOneBlockRusqlite { "plob-"@ } else { "ts-"@ })
        + transform_tag(t) + ".jv"@
}

/// One benchmark run: what it loads, with which backend, and where to.
#[derive(Debug, Clone)]
pub struct Runcfg {
    pub repo: String,
    pub transformations: TransformAmount,
    pub backend: Backend,
    pub n_lines: Option<usize>,
    pub source: String,
    pub destination: String,
    pub show_output: bool,
    pub hide_errors: bool,
}

impl Runcfg {
    /// A configuration whose input file is `source` and whose output
    /// database lies under `cwd`.
    pub fn new(
        repo: &str,
        transformations: TransformAmount,
        backend: Backend,
        n_lines: Option<usize>,
        show_output: bool,
        hide_errors: bool,
        source: String,
        cwd: &str,
    ) -> (r: Runcfg)
        ensures
            r.repo@ == repo@,
            r.transformations == transformations,
            r.backend == backend,
            r.n_lines == n_lines,
            r.source@ == source@,
            r.destination@ == destination_path(cwd@, transformations, backend, n_lines),
            r.show_output == show_output,
            r.hide_errors == hide_errors,
    {
        let mut destination = String::from_str(cwd);
        destination.append("/out/");
        let label = config_label_text(transformations, backend, n_lines);
        destination.append(label.as_str());
        destination.append(".sqlite");
        proof {
            assert(destination@ =~= destination_path(cwd@, transformations, backend, n_lines));
        }
        Runcfg {
            repo: String::from_str(repo),
            transformations,
            backend,
            n_lines,
            source,
            destination,
            show_output,
            hide_errors,
        }
    }

    pub fn destination(&self) -> (r: &str)
        ensures
            r@ == self.destination@,
    {
        self.destination.as_str()
    }

    pub fn transformations(&self) -> (r: TransformAmount)
        ensures
            r == self.transformations,
    {
        self.transformations
    }

    pub fn backend(&self) -> (r: Backend)
        ensures
            r == self.backend,
    {
        self.backend
    }

    pub fn n_lines(&self) -> (r: Option<usize>)
        ensures
            r == self.n_lines,
    {
        self.n_lines
    }

    /// The pipeline description file that this configuration runs.
    pub fn filename(&self) -> (r: String)
        ensures
            r@ == pipeline_file(self.transformations, self.backend),
    {
        let mut s = match self.backend {
            Backend::PolarsOneBlock | Backend::PolarsOneBlockRusqlite => String::from_str("plob-"),
            _ => String::from_str("ts-"),
        };
        s.append(self.transformations.example());
        s.append(".jv");
        s
    }

    /// The label of this configuration: `<backend>-<transformations>-<size>`.
    pub fn label(&self) -> (r: String)
        ensures
            r@ == config_label(self.transformations, self.backend, self.n_lines),
    {
        config_label_text(self.transformations, self.backend, self.n_lines)
    }
}

} // verus!
