//! Input-path dispatch: each input argument is `<path>` or `<path>:<mount>`,
//! split on the first colon; a second colon ends the mount name and the rest
//! is ignored.

use vstd::prelude::*;

verus! {

/// The byte that separates a path from its mount name.
pub const MOUNT_SEP: u8 = 58;

/// The index of the first occurrence of `b` in `s` at or after `from`, or
/// `s.len()` when there is none.
pub open spec fn spec_find(s: Seq<u8>, b: u8, from: int) -> int
    decreases s.len() - from when 0 <= from <= s.len()
{
    if from >= s.len() {
        s.len() as int
    } else if s[from] == b {
        from
    } else {
        spec_find(s, b, from + 1)
    }
}

/// Find the first occurrence of `b` in `v` at or after `from`.
fn find_byte(v: &Vec<u8>, b: u8, from: usize) -> (r: usize)
    requires
        0 <= from <= v@.len(),
    ensures
        r == spec_find(v@, b, from as int),
        from <= r <= v@.len(),
        r < v@.len() ==> v@[r as int] == b,
{
    let mut i: usize = from;
    while i < v.len()
        invariant
            from <= i <= v@.len(),
            spec_find(v@, b, from as int) == spec_find(v@, b, i as int),
        decreases v@.len() - i,
    {
        if v[i] == b {
            return i;
        }
        i = i + 1;
    }
    i
}

/// Copy `v[from..to]`.
fn sub_bytes(v: &Vec<u8>, from: usize, to: usize) -> (r: Vec<u8>)
    requires
        0 <= from <= to <= v@.len(),
    ensures
        r@ == v@.subrange(from as int, to as int),
{
    let mut out: Vec<u8> = Vec::new();
    let mut i: usize = from;
    while i < to
        invariant
            from <= i <= to <= v@.len(),
            out@ =~= v@.subrange(from as int, i as int),
        decreases to - i,
    {
        out.push(v[i]);
        i = i + 1;
    }
    proof {
        assert(out@ =~= v@.subrange(from as int, to as int));
    }
    out
}

/// Split one input argument into its filesystem path and, when a colon
/// follows, the mount name under which it appears in the output: everything
/// between the first colon and the second one or the end.
pub fn parse_input_path(input: &Vec<u8>) -> (r: (Vec<u8>, Option<Vec<u8>>))
    ensures
        r.0@ == input@.take(spec_find(input@, MOUNT_SEP, 0)),
        spec_find(input@, MOUNT_SEP, 0) == input@.len() ==> r.1 is None,
        spec_find(input@, MOUNT_SEP, 0) < input@.len() ==> (r.1 matches Some(m) && m@
            == input@.subrange(
            spec_find(input@, MOUNT_SEP, 0) + 1,
            spec_find(input@, MOUNT_SEP, spec_find(input@, MOUNT_SEP, 0) + 1),
        )),
{
    let c1 = find_byte(input, MOUNT_SEP, 0);
    let path = sub_bytes(input, 0, c1);
    proof {
        assert(input@.subrange(0, c1 as int) =~= input@.take(c1 as int));
    }
    if c1 == input.len() {
        (path, None)
    } else {
        let c2 = find_byte(input, MOUNT_SEP, c1 + 1);
        let mount = sub_bytes(input, c1 + 1, c2);
        (path, Some(mount))
    }
}

} // verus!
