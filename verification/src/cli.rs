//! The pure parts of the command-line layer: splitting an exec
//! invocation into program and arguments, and the settings listing.

use vstd::prelude::*;

use crate::settings::Settings;

verus! {

/// What the exec command runs: an explicit command takes its first word
/// as the program; otherwise the shell runs the `-c` command string.
pub fn parse_command(shell: &str, command: &Option<Vec<String>>, c: &Option<String>) -> (r: (
    String,
    Vec<String>,
))
    requires
        (match command {
            Option::Some(v) => v@.len() > 0,
            Option::None => c.is_some(),
        }),
    ensures
        (match command {
            Option::Some(v) => r.0@ == v.deep_view()[0] && r.1.deep_view() == v.deep_view().drop_first(),
            Option::None => r.0@ == shell@ && (match c {
                Option::Some(cv) => r.1.deep_view() == seq!["-c"@, cv@],
                Option::None => false,
            }),
        }),
{
    match command {
        Some(v) => {
            let program = v[0].clone();
            let mut args: Vec<String> = Vec::new();
            let mut i: usize = 1;
            proof {
                assert(args.deep_view() =~~= v.deep_view().drop_first().take(0));
            }
            while i < v.len()
                invariant
                    1 <= i <= v.len(),
                    v@.len() > 0,
                    args.deep_view() == v.deep_view().drop_first().take(i as int - 1),
                decreases v.len() - i,
            {
                let ghost pref = args.deep_view();
                args.push(v[i].clone());
                proof {
                    assert(args.deep_view() =~~= pref.push(v.deep_view()[i as int]));
                    assert(v.deep_view().drop_first().take(i as int) =~= v.deep_view()
                        .drop_first().take(i as int - 1).push(v.deep_view()[i as int]));
                }
                i = i + 1;
            }
            proof {
                assert(v.deep_view().drop_first().take(v.len() as int - 1) =~= v.deep_view()
                    .drop_first());
            }
            (program, args)
        },
        None => {
            let cs = match c {
                Some(s) => s.clone(),
                None => String::new(),
            };
            let mut args: Vec<String> = Vec::new();
            args.push(String::from_str("-c"));
            args.push(cs);
            proof {
                assert(args.deep_view() =~~= seq!["-c"@, cs@]);
            }
            (String::from_str(shell), args)
        },
    }
}

/// The settings listing command: shows every setting and its value.
#[derive(Debug)]
pub struct SettingsLs {}

impl SettingsLs {
    /// The listing, one `name = value` line per setting, in name order.
    pub fn lines(&self, settings: &Settings) -> (r: Vec<String>)
        ensures
            r.deep_view() == crate::settings::spec_index_map(settings@).map_values(
                |p: (Seq<char>, Seq<char>)| p.0 + " = "@ + p.1,
            ),
    {
        let ghost im = crate::settings::spec_index_map(settings@);
        let entries = settings.to_index_map();
        let mut r: Vec<String> = Vec::new();
        let mut i: usize = 0;
        proof {
            assert(r.deep_view() =~~= im.take(0).map_values(
                |p: (Seq<char>, Seq<char>)| p.0 + " = "@ + p.1,
            ));
        }
        while i < entries.len()
            invariant
                im == crate::settings::spec_index_map(settings@),
                entries.deep_view() == im,
                i <= entries.len(),
                r.deep_view() == im.take(i as int).map_values(
                    |p: (Seq<char>, Seq<char>)| p.0 + " = "@ + p.1,
                ),
            decreases entries.len() - i,
        {
            let ghost pref = r.deep_view();
            let line = entries[i].0.clone().concat(" = ").concat(entries[i].1.as_str());
            r.push(line);
            proof {
                assert(r.deep_view() =~~= pref.push(im[i as int].0 + " = "@ + im[i as int].1));
                assert(im.take(i + 1).map_values(|p: (Seq<char>, Seq<char>)| p.0 + " = "@ + p.1)
                    =~= im.take(i as int).map_values(
                    |p: (Seq<char>, Seq<char>)| p.0 + " = "@ + p.1,
                ).push(im[i as int].0 + " = "@ + im[i as int].1));
            }
            i = i + 1;
        }
        proof {
            assert(im.take(entries.len() as int) =~= im);
        }
        r
    }
}

} // verus!
