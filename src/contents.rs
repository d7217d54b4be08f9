//! The content bytes of an imported page: a stream, or an array of parts
//! joined with newlines; what cannot be read counts as empty.

use vstd::prelude::*;

verus! {

/// A page's `Contents` entry, as read from its document.
#[derive(Debug)]
pub enum ContentSource {
    /// A stream's decoded bytes.
    Stream(Vec<u8>),
    /// An array of parts.
    Array(Vec<ContentSource>),
    /// Anything else: a stream that cannot be decoded, a reference that does
    /// not resolve, or an object of another kind.
    Unreadable,
}

/// The bytes of `c` when it is a stream; for an array, those of its first
/// `n` parts, each followed by a newline.
pub open spec fn flattened_prefix(c: ContentSource, n: int) -> Seq<u8>
    decreases c, n,
{
    match c {
        ContentSource::Stream(b) => b@,
        ContentSource::Array(items) => if n <= 0 || n > items@.len() {
            Seq::empty()
        } else {
            let part = items@[n - 1];
            let part_len = match part {
                ContentSource::Array(inner) => inner@.len() as int,
                _ => 0,
            };
            flattened_prefix(c, n - 1) + flattened_prefix(part, part_len) + seq![10u8]
        },
        ContentSource::Unreadable => Seq::empty(),
    }
}

/// The content bytes of `c`: a stream's bytes; the parts of an array, each
/// followed by a newline; nothing for what cannot be read.
pub open spec fn flattened(c: ContentSource) -> Seq<u8> {
    match c {
        ContentSource::Array(items) => flattened_prefix(c, items@.len() as int),
        _ => flattened_prefix(c, 0),
    }
}

/// Appends the content bytes of `c` to `out`.
pub fn flatten_into(c: &ContentSource, out: &mut Vec<u8>)
    ensures
        final(out)@ == old(out)@ + flattened(*c),
    decreases c,
{
    match c {
        ContentSource::Stream(b) => {
            let ghost start = out@;
            let mut i: usize = 0;
            while i < b.len()
                invariant
                    i <= b@.len(),
                    out@ == start + b@.subrange(0, i as int),
                decreases b@.len() - i,
            {
                out.push(b[i]);
                i = i + 1;
                assert(out@ =~= start + b@.subrange(0, i as int));
            }
            assert(b@.subrange(0, b@.len() as int) =~= b@);
        },
        ContentSource::Array(items) => {
            let ghost start = out@;
            let mut i: usize = 0;
            assert(*c == ContentSource::Array(*items));
            assert(out@ =~= start + flattened_prefix(*c, 0));
            while i < items.len()
                invariant
                    *c == ContentSource::Array(*items),
                    i <= items@.len(),
                    out@ == start + flattened_prefix(*c, i as int),
                decreases items@.len() - i,
            {
                proof {
                    assert(decreases_to!(*c => *items));
                    assert(decreases_to!(*items => items[i as int]));
                    assert(decreases_to!(*c => items[i as int]));
                }
                flatten_into(&items[i], out);
                out.push(10u8);
                proof {
                    let part = items@[i as int];
                    let plen = match part {
                        ContentSource::Array(inner) => inner@.len() as int,
                        _ => 0,
                    };
                    assert(flattened(part) == flattened_prefix(part, plen));
                    assert(flattened_prefix(*c, i as int + 1) == flattened_prefix(*c, i as int)
                        + flattened_prefix(part, plen) + seq![10u8]);
                    assert(out@ =~= start + flattened_prefix(*c, i as int + 1));
                }
                i = i + 1;
            }
        },
        ContentSource::Unreadable => {
            assert(out@ =~= out@ + flattened(*c));
        },
    }
}

/// The content bytes of `c`.
pub fn flatten(c: &ContentSource) -> (r: Vec<u8>)
    ensures
        r@ == flattened(*c),
{
    let mut out: Vec<u8> = Vec::new();
    flatten_into(c, &mut out);
    assert(out@ =~= flattened(*c));
    out
}

} // verus!
