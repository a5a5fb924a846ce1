//! What the command line and the environment ask for.
use vstd::prelude::*;
use vstd::string::*;
use crate::text;

verus! {

/// The host where none is named.
pub const DEFAULT_HOST: &'static str = "sunchit-cd2.aka.corp.amazon.com";

/// What the program is to do.
pub struct Options {
    /// The host whose sessions are shown.
    pub host: String,
    /// Whether sessions are reached with mosh.
    pub use_mosh: bool,
    /// Whether the sessions are only listed.
    pub list: bool,
}

/// The options that the arguments, the program's name first, and the variable
/// `USE_MOSH` give: the first argument is the host, the second may ask for
/// mosh, and any may ask for the list.
pub fn read_options(args: &[String], use_mosh_var: Option<&str>) -> (r: Options)
    ensures
        r.host@ == (if args@.len() > 1 {
            args@[1]@
        } else {
            DEFAULT_HOST@
        }),
        r.use_mosh <==> (args@.len() > 2 && args@[2]@ == "--mosh"@) || (use_mosh_var matches Some(
            v,
        ) && v@ == "1"@),
        r.list <==> text::texts(args@).contains("--list"@),
{
    let host = if args.len() > 1 {
        args[1].clone()
    } else {
        DEFAULT_HOST.to_string()
    };
    let asked = args.len() > 2 && text::same_text(args[2].as_str(), "--mosh");
    let set = match use_mosh_var {
        Some(v) => text::same_text(v, "1"),
        None => false,
    };
    let mut list = false;
    let mut i: usize = 0;
    while i < args.len()
        invariant
            i <= args@.len(),
            list <==> text::texts(args@).take(i as int).contains("--list"@),
        decreases args.len() - i,
    {
        let ghost before = text::texts(args@).take(i as int);
        let ghost after = text::texts(args@).take(i + 1);
        assert(after =~= before.push(args@[i as int]@));
        let here = text::same_text(args[i].as_str(), "--list");
        proof {
            if before.contains("--list"@) {
                let k = choose|k: int| 0 <= k < before.len() && before[k] == "--list"@;
                assert(after[k] == "--list"@);
            }
            if here {
                assert(after[i as int] == "--list"@);
            }
            if after.contains("--list"@) && !here {
                let k = choose|k: int| 0 <= k < after.len() && after[k] == "--list"@;
                assert(before[k] == "--list"@);
            }
        }
        list = list || here;
        i += 1;
    }
    assert(text::texts(args@).take(i as int) =~= text::texts(args@));
    Options { host, use_mosh: asked || set, list }
}

}
