//! Configuration resolution from plain argument values.
//!
//! The caller hands over the command-line arguments (the first one being the
//! program name) and whether the environment asks for case-insensitive
//! search by default; resolution itself reads nothing from the outside. The
//! second argument is the query, the third the source, and a modifier is
//! taken from the fourth argument, or from the third when that is itself a
//! flag. A help request sets `exit` and bypasses the search.

use vstd::prelude::*;

verus! {

/// The resolved configuration the search runs under.
pub struct Config {
    pub query: String,
    pub source: String,
    pub case_sensitive: bool,
    pub exit: bool,
}

/// A modifier argument together with the effective argument count it was
/// resolved from.
pub struct Count {
    pub modifier: String,
    pub count: u32,
}

/// The source text identifier that a given argument list resolves to.
pub open spec fn spec_source(args: Seq<String>) -> Seq<char> {
    if args.len() >= 3 {
        args[2]@
    } else {
        Seq::empty()
    }
}

/// The modifier flag that a given argument list resolves to.
pub open spec fn spec_modifier(args: Seq<String>) -> Seq<char> {
    if args.len() >= 4 {
        args[3]@
    } else if spec_source(args) == "-i"@ || spec_source(args) == "-h"@ {
        spec_source(args)
    } else {
        Seq::empty()
    }
}

/// Whether two string slices hold the same characters.
pub fn str_eq(a: &str, b: &str) -> (r: bool)
    ensures
        r == (a@ == b@),
{
    let n = a.unicode_len();
    let m = b.unicode_len();
    if n != m {
        proof {
            assert(a@.len() != b@.len());
        }
        return false;
    }
    let mut i: usize = 0;
    while i < n
        invariant
            n == a@.len(),
            n == b@.len(),
            0 <= i <= n,
            forall|k: int| 0 <= k < i ==> a@[k] == b@[k],
        decreases n - i,
    {
        if a.get_char(i) != b.get_char(i) {
            proof {
                assert(a@[i as int] != b@[i as int]);
            }
            return false;
        }
        i += 1;
    }
    proof {
        assert(a@ =~= b@);
    }
    true
}

impl Config {
    /// Resolves the arguments into a configuration.
    ///
    /// Fails exactly when no query argument is present. Otherwise the query
    /// is the second argument and the source the third (empty when absent).
    /// A help modifier sets `exit`; the environment default or an
    /// insensitivity modifier turns case-sensitivity off.
    pub fn new(args: Vec<String>, env_case_insensitive: bool) -> (r: Result<Config, &'static str>)
        ensures
            r is Err <==> args@.len() < 2,
            r matches Err(m) ==> m@ == "Didn't get query string"@,
            r matches Ok(c) ==> {
                &&& c.query@ == args@[1]@
                &&& c.source@ == spec_source(args@)
                &&& c.exit == (spec_modifier(args@) == "-h"@)
                &&& c.case_sensitive == !(spec_modifier(args@) == "-h"@ || env_case_insensitive
                    || spec_modifier(args@) == "-i"@)
            },
    {
        if args.len() < 2 {
            return Err("Didn't get query string");
        }
        let query = args[1].clone();
        let source = if args.len() >= 3 {
            args[2].clone()
        } else {
            String::new()
        };
        proof {
            assert(source@ == spec_source(args@));
        }
        let count: Count = if args.len() >= 4 {
            Count { modifier: args[3].clone(), count: 4 }
        } else if str_eq(source.as_str(), "-i") || str_eq(source.as_str(), "-h") {
            Count { modifier: source.clone(), count: 4 }
        } else {
            Count { modifier: String::new(), count: 3 }
        };
        proof {
            assert(count.modifier@ == spec_modifier(args@));
        }
        if str_eq(count.modifier.as_str(), "-h") {
            Ok(Config { query, source, case_sensitive: false, exit: true })
        } else if env_case_insensitive || str_eq(count.modifier.as_str(), "-i") {
            Ok(Config { query, source, case_sensitive: false, exit: false })
        } else {
            Ok(Config { query, source, case_sensitive: true, exit: false })
        }
    }
}

} // verus!
