//! The startup files, read in order: the system-wide `/etc/mitosrc`, then
//! `.mitosrc` in the user's home directory, where there is one.

use vstd::prelude::*;

use crate::text::append_str;

verus! {

/// `dirs::home_dir`, as text. What it returns rests on `$HOME` and the
/// password database; on Unix a directory it returns is never empty.
#[verifier::external_body]
fn home_dir() -> (r: Option<String>)
    ensures
        r matches Some(h) ==> h@.len() > 0,
{
    match dirs::home_dir() {
        Some(p) => Some(p.to_string_lossy().into_owned()),
        None => None,
    }
}

/// `dir` joined with the relative path `name`: a `/` goes between them
/// unless `dir` already ends with one.
pub open spec fn join_path(dir: Seq<char>, name: Seq<char>) -> Seq<char> {
    if dir.len() == 0 || dir.last() == '/' {
        dir + name
    } else {
        dir + seq!['/'] + name
    }
}

/// The startup files when the home directory is `home`: `/etc/mitosrc`,
/// then `.mitosrc` in `home` where there is one.
pub fn startup_files(home: Option<String>) -> (r: Vec<String>)
    ensures
        r@.len() == (if home is Some { 2int } else { 1int }),
        r@[0]@ == "/etc/mitosrc"@,
        home matches Some(h) ==> r@[1]@ == join_path(h@, ".mitosrc"@),
{
    let mut paths: Vec<String> = Vec::new();
    paths.push(String::from_str("/etc/mitosrc"));
    match home {
        Some(h) => {
            let ghost hv = h@;
            let mut p = h;
            let n = p.as_str().unicode_len();
            let needs_slash = if n == 0 {
                false
            } else {
                p.as_str().get_char(n - 1) != '/'
            };
            if needs_slash {
                p.push('/');
            }
            append_str(&mut p, ".mitosrc");
            proof {
                if needs_slash {
                    assert(p@ =~= hv + seq!['/'] + ".mitosrc"@);
                } else {
                    assert(p@ =~= hv + ".mitosrc"@);
                }
            }
            paths.push(p);
        },
        None => {},
    }
    paths
}

/// The startup files for this user: `/etc/mitosrc`, then, where the user
/// has a home directory, `.mitosrc` in it.
pub fn files() -> (r: Vec<String>)
    ensures
        1 <= r@.len() <= 2,
        r@[0]@ == "/etc/mitosrc"@,
        r@.len() == 2 ==> exists|home: Seq<char>|
            home.len() > 0 && r@[1]@ == #[trigger] join_path(home, ".mitosrc"@),
{
    let home = home_dir();
    let ghost h = match home {
        Some(ref d) => d@,
        None => Seq::empty(),
    };
    let r = startup_files(home);
    proof {
        if r@.len() == 2 {
            assert(r@[1]@ == join_path(h, ".mitosrc"@));
        }
    }
    r
}

} // verus!
