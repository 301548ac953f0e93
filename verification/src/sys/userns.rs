//! what a user namespace for an idmapped mount is told: the id map lines and
//! the /proc files they go to. forking the child that owns the namespace,
//! and the writes, are the system layer's

use crate::api::sandbox::IdMap;
use crate::text::{concat, dec, dec_signed, i32_to_dec, u64_to_dec};
use vstd::prelude::*;

verus! {

/// the uid_map/gid_map line "inside outside count\n": ids 0.. inside map to
/// outer_start.. outside
pub open spec fn idmap_line_of(outer_start: u32, count: u32) -> Seq<char> {
    "0 "@ + dec(outer_start as nat) + " "@ + dec(count as nat) + "\n"@
}

pub fn idmap_line(map: &IdMap) -> (line: String)
    ensures
        line@ == idmap_line_of(map.outer_start_spec(), map.count_spec()),
{
    let mut line = concat("0 ", u64_to_dec(map.outer_start() as u64).as_str());
    line.append(" ");
    line.append(u64_to_dec(map.count() as u64).as_str());
    line.append("\n");
    line
}

/// `/proc/<pid>/<file>`
pub open spec fn proc_file_of(pid: i32, file: Seq<char>) -> Seq<char> {
    "/proc/"@ + dec_signed(pid as int) + "/"@ + file
}

pub fn proc_file(pid: i32, file: &str) -> (p: String)
    ensures
        p@ == proc_file_of(pid, file@),
{
    let mut p = concat("/proc/", i32_to_dec(pid).as_str());
    p.append("/");
    p.append(file);
    p
}

} // verus!
