//! The policy for releasing file descriptors once a test body is done.
use vstd::prelude::*;

verus! {

/// `codes` are the return codes of the closes that a release of `fds`
/// performs: one per descriptor, in order, stopping at the first that fails.
pub open spec fn close_codes(fds: Seq<i32>, codes: Seq<i32>) -> bool {
    &&& codes.len() <= fds.len()
    &&& forall|i: int| 0 <= i < codes.len() - 1 ==> #[trigger] codes[i] == 0
    &&& codes.len() == fds.len() || (codes.len() > 0 && codes.last() != 0)
}

/// The outcome of a release whose closes returned `codes`: `Ok` when all
/// succeeded, else the descriptor whose close failed.
pub open spec fn close_outcome(fds: Seq<i32>, codes: Seq<i32>) -> Result<(), i32> {
    if codes.len() > 0 && codes.last() != 0 {
        Err(fds[codes.len() - 1])
    } else {
        Ok(())
    }
}

/// A release that returns `Ok` closed every descriptor exactly once, each
/// with success; one that returns `Err(fd)` stopped at the failing close of
/// `fd` and closed nothing after it.
pub proof fn lemma_release_outcome(fds: Seq<i32>, codes: Seq<i32>)
    requires
        close_codes(fds, codes),
    ensures
        close_outcome(fds, codes) is Ok ==> codes.len() == fds.len() && forall|i: int|
            0 <= i < fds.len() ==> #[trigger] codes[i] == 0,
        close_outcome(fds, codes) matches Err(fd) ==> {
            &&& 0 < codes.len() <= fds.len()
            &&& fd == fds[codes.len() - 1]
            &&& codes.last() != 0
            &&& forall|i: int| 0 <= i < codes.len() - 1 ==> #[trigger] codes[i] == 0
        },
{
    if close_outcome(fds, codes) is Ok {
        assert forall|i: int| 0 <= i < fds.len() implies #[trigger] codes[i] == 0 by {
            if i == codes.len() - 1 {
                assert(codes[i] == codes.last());
            }
        }
    }
}

/// Closes each of `fds` once, in order, with `close`, which returns 0 on
/// success. Stops at the first descriptor that fails to close and returns it.
pub fn close_fds(fds: &[i32], close: impl Fn(i32) -> i32) -> (r: Result<(), i32>)
    requires
        forall|fd: i32| call_requires(close, (fd,)),
    ensures
        exists|codes: Seq<i32>|
            {
                &&& close_codes(fds@, codes)
                &&& forall|i: int| 0 <= i < codes.len() ==> call_ensures(close, (fds@[i],), #[trigger] codes[i])
                &&& r == close_outcome(fds@, codes)
            },
{
    let ghost mut codes: Seq<i32> = Seq::empty();
    let mut i: usize = 0;
    while i < fds.len()
        invariant
            i <= fds@.len(),
            codes.len() == i,
            forall|fd: i32| call_requires(close, (fd,)),
            forall|j: int| 0 <= j < i ==> #[trigger] codes[j] == 0,
            forall|j: int| 0 <= j < i ==> call_ensures(close, (fds@[j],), #[trigger] codes[j]),
        decreases fds@.len() - i,
    {
        let fd = fds[i];
        let rc = close(fd);
        proof {
            codes = codes.push(rc);
        }
        i = i + 1;
        if rc != 0 {
            assert(close_codes(fds@, codes));
            return Err(fd);
        }
    }
    assert(close_codes(fds@, codes));
    Ok(())
}

} // verus!
