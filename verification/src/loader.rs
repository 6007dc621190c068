//! Format dispatch: parsing raw text of a declared extension into a `Value`.

use crate::loaders::yaml::YamlLoader;
use crate::{Value, ValModel};
use vstd::prelude::*;

verus! {

/// An error from loading a configuration document.
#[derive(Debug, PartialEq, Eq, Structural)]
pub enum LoaderError {
    /// The text could not be parsed, or no loader handles the extension.
    ParseFailed,
}

impl Clone for LoaderError {
    /// A copy of the error.
    fn clone(&self) -> (r: LoaderError)
        ensures
            r == *self,
    {
        LoaderError::ParseFailed
    }
}

/// A suite of loaders, dispatching on file extension.  The default suite
/// holds the YAML loader.
///
/// The surface this stands in for held boxed loader trait objects so a
/// host could add formats; Verus takes no such table, so the suite is the
/// listed YAML loaders, and another format means another dispatch arm here.
#[derive(Debug)]
pub struct MultiLoader {
    pub loaders: Vec<YamlLoader>,
}

impl MultiLoader {
    /// A dispatcher over the given loaders.
    pub fn new(loaders: Vec<YamlLoader>) -> (r: MultiLoader)
        ensures
            r.loaders@ == loaders@,
    {
        MultiLoader { loaders }
    }

    /// Parses `content` with the first loader whose extension is `ext`;
    /// `ParseFailed` where no loader matches or the text does not parse.
    pub fn load(&self, ext: &str, content: &str) -> (r: Result<Value, LoaderError>)
        ensures
            (self.loaders@.len() == 0 || ext@ != "yaml"@) ==> r == Result::<
                Value,
                LoaderError,
            >::Err(LoaderError::ParseFailed),
            (self.loaders@.len() > 0 && ext@ == "yaml"@) ==> (r is Ok
                <==> crate::loaders::yaml::yaml_parses(content@)),
            (self.loaders@.len() > 0 && ext@ == "yaml"@) ==> (r matches Ok(v) ==> v@
                == crate::loaders::yaml::spec_from_yaml(
                crate::loaders::yaml::yaml_doc(content@),
                crate::loaders::yaml::MAX_YAML_DEPTH as nat,
            )),
            r matches Err(e) ==> e == LoaderError::ParseFailed,
    {
        let n = self.loaders.len();
        let mut i: usize = 0;
        while i < n
            invariant
                0 <= i <= n,
                n == self.loaders@.len(),
                i > 0 ==> ext@ != "yaml"@,
            decreases n - i,
        {
            if crate::strutil::str_eq(ext, self.loaders[i].ext()) {
                return self.loaders[i].load(content);
            }
            i += 1;
        }
        Err(LoaderError::ParseFailed)
    }
}

} // verus!
