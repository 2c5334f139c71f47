//! The configuration loader: resolve where the configuration file lives,
//! and turn its text into a gadget list, degrading to an empty list rather
//! than failing the caller.

use vstd::prelude::*;
use vstd::string::StringExecFns;

use crate::gadget::{Gadget, GadgetV};
use crate::parse::{parse_config, spec_parse, ParseError};

verus! {

/// Loads the gadget list from a configuration text.
pub struct GadgetLoader {}

impl GadgetLoader {
    pub fn new() -> (r: Self) {
        GadgetLoader {  }
    }

    /// Where the configuration file is looked for: an explicit override
    /// wins; otherwise `gadgets.yaml` under the given working directory;
    /// with neither at hand the path degrades to the empty string.
    pub fn resolve_config_path(&self, override_path: Option<String>, working_dir: Option<&str>) -> (r:
        String)
        ensures
            override_path matches Some(p) ==> r@ == p@,
            override_path is None ==> (working_dir matches Some(d) ==> r@ == d@
                + "/gadgets.yaml"@),
            override_path is None && working_dir is None ==> r@ == Seq::<char>::empty(),
    {
        match override_path {
            Some(p) => p,
            None => match working_dir {
                Some(d) => String::from_str(d).concat("/gadgets.yaml"),
                None => String::new(),
            },
        }
    }

    /// The gadget list a configuration text yields, with the policy that no
    /// failure reaches the caller: an unreadable file (`None`) or a text the
    /// grammar rejects both give an empty list, the latter beside its
    /// diagnostic.
    pub fn load_from_text(&self, contents: Option<&str>) -> (r: (Vec<Gadget>, Option<ParseError>))
        ensures
            match contents {
                None => r.0.deep_view() == Seq::<GadgetV>::empty() && r.1 is None,
                Some(s) => match spec_parse(s@) {
                    Ok(gs) => r.0.deep_view() == gs && r.1 is None,
                    Err(e) => r.0.deep_view() == Seq::<GadgetV>::empty() && r.1 == Some(e),
                },
            },
    {
        match contents {
            None => {
                let empty: Vec<Gadget> = Vec::new();
                proof {
                    assert(empty.deep_view() =~= Seq::<GadgetV>::empty());
                }
                (empty, None)
            },
            Some(text) => match parse_config(text) {
                Ok(gadgets) => (gadgets, None),
                Err(e) => {
                    let empty: Vec<Gadget> = Vec::new();
                    proof {
                        assert(empty.deep_view() =~= Seq::<GadgetV>::empty());
                    }
                    (empty, Some(e))
                },
            },
        }
    }
}

} // verus!
