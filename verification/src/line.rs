//! Lines and their comparison keys.
//!
//! A line is a byte sequence that may end in a single line terminator,
//! `\n` or `\r\n`. Lines are compared for equality on their *key*: the
//! bytes that precede the terminator. Interior bytes, leading or trailing
//! spaces, and everything else are compared exactly.

use vstd::prelude::*;

verus! {

/// Line-feed byte, `\n`.
pub const LF: u8 = 10;

/// Carriage-return byte, `\r`.
pub const CR: u8 = 13;

/// The comparison key of a line: its bytes with a single trailing
/// terminator (`\n` or `\r\n`) removed. A line with no trailing
/// terminator is its own key.
pub open spec fn key_of(line: Seq<u8>) -> Seq<u8> {
    if line.len() >= 2 && line[line.len() - 2] == CR && line[line.len() - 1] == LF {
        line.take(line.len() - 2)
    } else if line.len() >= 1 && line[line.len() - 1] == LF {
        line.take(line.len() - 1)
    } else {
        line
    }
}

/// Number of bytes of `line` that belong to its key, i.e. everything
/// before the trailing terminator.
pub fn key_len(line: &Vec<u8>) -> (n: usize)
    ensures
        n <= line.len(),
        key_of(line@) == line@.take(n as int),
        n == key_of(line@).len(),
{
    let len = line.len();
    if len >= 2 && line[len - 2] == CR && line[len - 1] == LF {
        len - 2
    } else if len >= 1 && line[len - 1] == LF {
        len - 1
    } else {
        proof {
            assert(line@.take(len as int) =~= line@);
        }
        len
    }
}

/// Whether two lines compare equal after their terminators are stripped,
/// i.e. whether they belong to the same run.
pub fn keys_equal(a: &Vec<u8>, b: &Vec<u8>) -> (r: bool)
    ensures
        r == (key_of(a@) == key_of(b@)),
{
    let na = key_len(a);
    let nb = key_len(b);
    if na != nb {
        return false;
    }
    let mut i: usize = 0;
    while i < na
        invariant
            i <= na,
            na == nb,
            na <= a.len(),
            nb <= b.len(),
            key_of(a@) == a@.take(na as int),
            key_of(b@) == b@.take(nb as int),
            forall|j: int| 0 <= j < i ==> a@[j] == b@[j],
        decreases na - i,
    {
        if a[i] != b[i] {
            proof {
                assert(key_of(a@)[i as int] != key_of(b@)[i as int]);
            }
            return false;
        }
        i += 1;
    }
    proof {
        assert(key_of(a@) =~= key_of(b@));
    }
    true
}

/// A fresh copy of a line's bytes.
pub fn copy_bytes(src: &Vec<u8>) -> (out: Vec<u8>)
    ensures
        out@ == src@,
{
    let mut out: Vec<u8> = Vec::new();
    let mut i: usize = 0;
    while i < src.len()
        invariant
            i <= src.len(),
            out@ == src@.take(i as int),
        decreases src.len() - i,
    {
        out.push(src[i]);
        proof {
            assert(out@ =~= src@.take(i + 1 as int));
        }
        i += 1;
    }
    proof {
        assert(src@.take(src@.len() as int) =~= src@);
    }
    out
}

} // verus!
