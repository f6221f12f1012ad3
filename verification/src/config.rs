//! The build driver's configuration: where generated source goes and what
//! the output file is called. The file stem defaults to the root file's
//! base name; the extension is the target language's.

use vstd::prelude::*;

use crate::project::Language;

verus! {

/// Output options for a compile run.
#[derive(Debug)]
pub struct Config {
    out_dir: Option<String>,
    out_file: Option<String>,
}

impl Config {
    /// The default configuration: everything left to the driver.
    pub fn new() -> (r: Config)
        ensures
            r.spec_out_dir() is None,
            r.spec_out_file() is None,
    {
        Config { out_dir: None, out_file: None }
    }

    pub closed spec fn spec_out_dir(&self) -> Option<Seq<char>> {
        match self.out_dir {
            Some(ref s) => Some(s@),
            None => None,
        }
    }

    pub closed spec fn spec_out_file(&self) -> Option<Seq<char>> {
        match self.out_file {
            Some(ref s) => Some(s@),
            None => None,
        }
    }

    /// Choose the directory generated source is written to.
    pub fn out_dir(&mut self, path: String)
        ensures
            final(self).spec_out_dir() == Some(path@),
            final(self).spec_out_file() == old(self).spec_out_file(),
    {
        self.out_dir = Some(path);
    }

    /// Choose the output file's name.
    pub fn out_file(&mut self, name: String)
        ensures
            final(self).spec_out_file() == Some(name@),
            final(self).spec_out_dir() == old(self).spec_out_dir(),
    {
        self.out_file = Some(name);
    }

    /// The chosen output directory, if any.
    pub fn chosen_dir(&self) -> (r: Option<&String>)
        ensures
            match r {
                Some(s) => self.spec_out_dir() == Some(s@),
                None => self.spec_out_dir() is None,
            },
    {
        self.out_dir.as_ref()
    }

    /// The chosen output file name, if any.
    pub fn chosen_file(&self) -> (r: Option<&String>)
        ensures
            match r {
                Some(s) => self.spec_out_file() == Some(s@),
                None => self.spec_out_file() is None,
            },
    {
        self.out_file.as_ref()
    }
}

/// The output file's name for a stem: the stem, a dot, and the target
/// language's source extension. The stem defaults to the root file's base
/// name on the driver's side.
pub fn output_name(stem: &str, lang: Language) -> (r: String)
    ensures
        r@ == stem@ + "."@ + "rs"@,
{
    let mut r = String::new();
    r.push_str(stem);
    r.push_str(".");
    r.push_str(lang.extension());
    r
}

} // verus!
