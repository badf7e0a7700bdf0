//! Column and dialect configuration: pure data consumed by the header
//! reconciler and the row processor.

use vstd::prelude::*;

verus! {

/// One declared column: its name, an optional transform expression in the
/// embedded scripting language, and an optional exclusion flag.
#[derive(PartialEq, Eq, Debug, Clone)]
pub struct ColDef {
    pub name: String,
    pub func: Option<String>,
    pub exclude: Option<bool>,
}

impl ColDef {
    pub fn new(name: String) -> (c: ColDef)
        ensures
            c.name == name,
            c.func is None,
            c.exclude is None,
    {
        ColDef { name, func: None, exclude: None }
    }

    pub fn get_func(&self) -> (r: &Option<String>)
        ensures
            r == &self.func,
    {
        &self.func
    }

    pub fn get_name(&self) -> (r: &str)
        ensures
            r@ == self.name@,
    {
        self.name.as_str()
    }

    pub fn get_exclude(&self) -> (r: &Option<bool>)
        ensures
            r == &self.exclude,
    {
        &self.exclude
    }

    /// Whether this column is excluded from the output: the flag's value,
    /// with absence meaning not excluded.
    pub open spec fn spec_excluded(&self) -> bool {
        self.exclude == Some(true)
    }

    /// A field-for-field copy whose equality with the original is known to
    /// the verifier, unlike the derived `clone`.
    pub fn duplicate(&self) -> (c: ColDef)
        ensures
            c == *self,
    {
        ColDef {
            name: self.name.clone(),
            func: match &self.func {
                Some(s) => Some(s.clone()),
                None => None,
            },
            exclude: self.exclude,
        }
    }
}

/// Input dialect options for the delimited-format reader.
#[derive(PartialEq, Eq, Debug)]
pub struct Input {
    pub trim: bool,
    pub quoting: bool,
    pub double_quote: bool,
    pub quote: Option<char>,
    pub escape: Option<char>,
    pub comment: Option<char>,
    pub delimiter: Option<char>,
    pub terminator: Option<char>,
}

impl Default for Input {
    fn default() -> (r: Input)
        ensures
            !r.trim,
            r.quoting,
            r.double_quote,
            r.quote is None,
            r.escape is None,
            r.comment is None,
            r.delimiter is None,
            r.terminator is None,
    {
        Input {
            trim: false,
            quoting: true,
            double_quote: true,
            quote: None,
            escape: None,
            comment: None,
            delimiter: None,
            terminator: None,
        }
    }
}

/// Output dialect options for the delimited-format writer.
#[derive(PartialEq, Eq, Debug)]
pub struct Output {
    pub header: bool,
    pub double_quote: bool,
    pub quote: Option<char>,
    pub escape: Option<char>,
    pub delimiter: Option<char>,
    pub terminator: Option<char>,
}

impl Default for Output {
    fn default() -> (r: Output)
        ensures
            r.header,
            r.double_quote,
            r.quote is None,
            r.escape is None,
            r.delimiter is None,
            r.terminator is None,
    {
        Output {
            header: true,
            double_quote: true,
            quote: None,
            escape: None,
            delimiter: None,
            terminator: None,
        }
    }
}

/// The whole configuration: dialects, the optional row filter expression,
/// and the ordered column declarations.
#[derive(PartialEq, Eq, Debug)]
pub struct Config {
    pub version: String,
    pub input: Input,
    pub output: Output,
    pub filter: Option<String>,
    pub columns: Vec<ColDef>,
}

/// The first declaration in `cols` whose name reads `name`, if any.
pub open spec fn lookup_def(cols: Seq<ColDef>, name: Seq<char>) -> Option<ColDef>
    decreases cols.len(),
{
    if cols.len() == 0 {
        None
    } else if cols[0].name@ == name {
        Some(cols[0])
    } else {
        lookup_def(cols.drop_first(), name)
    }
}

impl Default for Config {
    fn default() -> (r: Config)
        ensures
            r.version@ == "1"@,
            !r.input.trim,
            r.input.quoting,
            r.input.double_quote,
            r.input.quote is None,
            r.input.escape is None,
            r.input.comment is None,
            r.input.delimiter is None,
            r.input.terminator is None,
            r.output.header,
            r.output.double_quote,
            r.output.quote is None,
            r.output.escape is None,
            r.output.delimiter is None,
            r.output.terminator is None,
            r.filter is None,
            r.columns@.len() == 0,
    {
        Config {
            version: String::from_str("1"),
            input: Input::default(),
            output: Output::default(),
            filter: None,
            columns: Vec::new(),
        }
    }
}

impl Config {
    pub fn new() -> (r: Config)
        ensures
            r.version@ == "1"@,
            !r.input.trim,
            r.input.quoting,
            r.input.double_quote,
            r.input.quote is None,
            r.input.escape is None,
            r.input.comment is None,
            r.input.delimiter is None,
            r.input.terminator is None,
            r.output.header,
            r.output.double_quote,
            r.output.quote is None,
            r.output.escape is None,
            r.output.delimiter is None,
            r.output.terminator is None,
            r.filter is None,
            r.columns@.len() == 0,
    {
        Config::default()
    }

    /// The declared column names, in declaration order.
    pub fn get_headers(&self) -> (r: Vec<String>)
        ensures
            r@.len() == self.columns@.len(),
            forall|i: int| 0 <= i < r@.len() ==> r@[i]@ == self.columns@[i].name@,
    {
        let mut out: Vec<String> = Vec::new();
        let mut i: usize = 0;
        while i < self.columns.len()
            invariant
                i <= self.columns@.len(),
                out@.len() == i,
                forall|j: int| 0 <= j < i ==> out@[j]@ == self.columns@[j].name@,
            decreases self.columns@.len() - i,
        {
            out.push(self.columns[i].name.clone());
            i = i + 1;
        }
        out
    }

    /// The first declaration named `name`, if one exists.
    pub fn get_column_definition(&self, name: &str) -> (r: Option<&ColDef>)
        ensures
            match lookup_def(self.columns@, name@) {
                Some(d) => r is Some && *r->0 == d,
                None => r is None,
            },
    {
        let name_owned = String::from_str(name);
        proof {
            assert(self.columns@.skip(0) =~= self.columns@);
        }
        let mut i: usize = 0;
        while i < self.columns.len()
            invariant
                name_owned@ == name@,
                i <= self.columns@.len(),
                lookup_def(self.columns@, name@) == lookup_def(self.columns@.skip(i as int), name@),
                forall|j: int| 0 <= j < i ==> self.columns@[j].name@ != name@,
            decreases self.columns@.len() - i,
        {
            proof {
                assert(self.columns@.skip(i as int)[0] == self.columns@[i as int]);
            }
            if self.columns[i].name == name_owned {
                return Some(&self.columns[i]);
            }
            proof {
                assert(self.columns@.skip(i as int).drop_first() =~= self.columns@.skip(
                    i + 1 as int,
                ));
            }
            i = i + 1;
        }
        proof {
            assert(self.columns@.skip(i as int).len() == 0);
        }
        None
    }
}

} // verus!
