//! Default configuration directories.

use vstd::prelude::*;

use crate::text::{append_str, copy_string, ends_with, string_from};

verus! {

/// `Path::join` of a relative component: `b` alone after an empty path,
/// else `a`, a `/` unless `a` ends with one, and `b`.
pub open spec fn path_join(a: Seq<char>, b: Seq<char>) -> Seq<char> {
    if a.len() == 0 {
        b
    } else if a.last() == '/' {
        a + b
    } else {
        a + seq!['/'] + b
    }
}

fn join(a: &str, b: &str) -> (r: String)
    ensures
        r@ == path_join(a@, b@),
{
    let cs = crate::text::chars_of(a);
    let mut out: Vec<char> = Vec::new();
    append_str(&mut out, a);
    if cs.len() > 0 && cs[cs.len() - 1] != '/' {
        out.push('/');
    }
    append_str(&mut out, b);
    assert(out@ =~= path_join(a@, b@));
    string_from(out.as_slice())
}

/// The default directories under a `share/snmpsim` tree: the user's
/// `~/.snmpsim/<leaf>` when HOME is known, `/usr/local/share/snmpsim/<leaf>`
/// first on macOS, then `/usr/share/snmpsim/<leaf>` and
/// `/usr/local/share/snmpsim/<leaf>`.
pub open spec fn spec_dirs(home: Option<Seq<char>>, macos: bool, leaf: Seq<char>) -> Seq<Seq<char>> {
    let user = match home {
        Some(h) => seq![path_join(path_join(h, ".snmpsim"@), leaf)],
        None => Seq::empty(),
    };
    let mac = if macos {
        seq![path_join("/usr/local/share/snmpsim"@, leaf)]
    } else {
        Seq::empty()
    };
    user + mac + seq![
        path_join("/usr/share/snmpsim"@, leaf),
        path_join("/usr/local/share/snmpsim"@, leaf),
    ]
}

fn dirs(home: Option<&str>, macos: bool, leaf: &str) -> (r: Vec<String>)
    ensures
        Seq::new(r@.len(), |i: int| r@[i]@) == spec_dirs(
            match home {
                Some(h) => Some(h@),
                None => None,
            },
            macos,
            leaf@,
        ),
{
    let mut r: Vec<String> = Vec::new();
    let ghost mut want: Seq<Seq<char>> = Seq::empty();
    if let Some(h) = home {
        let a = join(h, ".snmpsim");
        let b = join(a.as_str(), leaf);
        r.push(b);
        proof {
            want = want.push(path_join(path_join(h@, ".snmpsim"@), leaf@));
        }
    }
    if macos {
        r.push(join("/usr/local/share/snmpsim", leaf));
        proof {
            want = want.push(path_join("/usr/local/share/snmpsim"@, leaf@));
        }
    }
    r.push(join("/usr/share/snmpsim", leaf));
    r.push(join("/usr/local/share/snmpsim", leaf));
    proof {
        want = want.push(path_join("/usr/share/snmpsim"@, leaf@)).push(
            path_join("/usr/local/share/snmpsim"@, leaf@),
        );
    }
    assert(Seq::new(r@.len(), |i: int| r@[i]@) =~= want);
    assert(want =~= spec_dirs(
        match home {
            Some(h) => Some(h@),
            None => None,
        },
        macos,
        leaf@,
    ));
    r
}

/// The default data directories to search for simulation files, given
/// the user's home directory (if known) and whether the system is macOS.
pub fn data_dirs(home: Option<&str>, macos: bool) -> (r: Vec<String>)
    ensures
        Seq::new(r@.len(), |i: int| r@[i]@) == spec_dirs(
            match home {
                Some(h) => Some(h@),
                None => None,
            },
            macos,
            "data"@,
        ),
{
    dirs(home, macos, "data")
}

/// The default variation modules directories.
pub fn variation_dirs(home: Option<&str>, macos: bool) -> (r: Vec<String>)
    ensures
        Seq::new(r@.len(), |i: int| r@[i]@) == spec_dirs(
            match home {
                Some(h) => Some(h@),
                None => None,
            },
            macos,
            "variation"@,
        ),
{
    dirs(home, macos, "variation")
}

/// The default cache directory (for index files), under the temporary directory.
pub fn cache_dir(temp_dir: &str) -> (r: String)
    ensures
        r@ == path_join(temp_dir@, "snmpsim"@),
{
    join(temp_dir, "snmpsim")
}

} // verus!
