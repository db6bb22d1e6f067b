//! How the server secures its connections.

use vstd::prelude::*;

verus! {

/// The files that connections are secured with.
#[derive(Debug)]
pub struct TlsFiles {
    pub chain: String,
    pub key: String,
}

/// One of the two files was named without the other.
#[derive(Debug, PartialEq, Eq, Structural)]
pub struct IncompleteTls;

/// Says whether connections are secured, and with which files. Both files are named, or neither.
pub fn tls_files(chain: Option<String>, key: Option<String>) -> (r: Result<
    Option<TlsFiles>,
    IncompleteTls,
>)
    ensures
        match (chain, key) {
            (Some(chain), Some(key)) => r matches Ok(Some(files)) && files.chain@ == chain@
                && files.key@ == key@,
            (None, None) => r matches Ok(None),
            _ => r == Err::<Option<TlsFiles>, IncompleteTls>(IncompleteTls),
        },
{
    match (chain, key) {
        (Some(chain), Some(key)) => Ok(Some(TlsFiles { chain, key })),
        (None, None) => Ok(None),
        _ => Err(IncompleteTls),
    }
}

/// When the two files were last changed, in nanoseconds from 1970 on.
#[derive(Debug)]
pub struct FileTimes {
    pub chain: i128,
    pub key: i128,
}

/// Whether a file has changed since a time, going by when it was last changed. A file of which
/// that cannot be said has not.
pub open spec fn is_newer(seen: Option<i128>, last: i128) -> bool {
    match seen {
        Some(time) => time > last,
        None => false,
    }
}

/// Takes note of a change of a file, and says whether there was one.
fn note_change(seen: Option<i128>, last: &mut i128) -> (r: bool)
    ensures
        r == is_newer(seen, *old(last)),
        *final(last) == if r {
            seen->0
        } else {
            *old(last)
        },
{
    match seen {
        Some(time) => {
            if time > *last {
                *last = time;
                true
            } else {
                false
            }
        },
        None => false,
    }
}

impl FileTimes {
    /// Says whether the files are to be loaded again, because one of them has changed. Takes note
    /// of one change at a time: that of the chain first.
    pub fn reload(&mut self, chain: Option<i128>, key: Option<i128>) -> (r: bool)
        ensures
            r == (is_newer(chain, old(self).chain) || is_newer(key, old(self).key)),
            final(self).chain == if is_newer(chain, old(self).chain) {
                chain->0
            } else {
                old(self).chain
            },
            final(self).key == if !is_newer(chain, old(self).chain) && is_newer(
                key,
                old(self).key,
            ) {
                key->0
            } else {
                old(self).key
            },
    {
        note_change(chain, &mut self.chain) || note_change(key, &mut self.key)
    }
}

/// A file is newer than a time exactly if it was changed, as far as that can be said, after it.
pub proof fn law_is_newer(time: i128, last: i128)
    ensures
        is_newer(Some(time), last) <==> last < time,
        !is_newer(None, last),
{
}

} // verus!
