use crate::types::{BuildError, CallConv, FuncParam, MAX_LEN};
use vstd::prelude::*;

verus! {

/// What a signature describes: a calling convention and the ordered
/// parameter and result lists.
pub struct SigView {
    pub call_conv: CallConv,
    pub params: Seq<FuncParam>,
    pub results: Seq<FuncParam>,
}

/// A calling convention with ordered parameter and result lists, each at
/// most 65535 long. It owns its lists; a clone owns copies of them.
#[derive(Debug)]
pub struct FuncSig {
    call_conv: CallConv,
    params: Vec<FuncParam>,
    results: Vec<FuncParam>,
}

impl View for FuncSig {
    type V = SigView;

    closed spec fn view(&self) -> SigView {
        SigView { call_conv: self.call_conv, params: self.params@, results: self.results@ }
    }
}

/// Copies each entry of `src` into a new vector.
fn copy_entries(src: &[FuncParam]) -> (r: Vec<FuncParam>)
    ensures
        r@ == src@,
{
    let mut r: Vec<FuncParam> = Vec::new();
    let mut i: usize = 0;
    while i < src.len()
        invariant
            i <= src@.len(),
            r@ == src@.subrange(0, i as int),
        decreases src@.len() - i,
    {
        r.push(src[i]);
        i = i + 1;
    }
    assert(r@ =~= src@);
    r
}

impl FuncSig {
    #[verifier::type_invariant]
    pub open spec fn inv(self) -> bool {
        Self::fits(self@)
    }

    /// Every list of a signature fits the engine's 16-bit counts.
    pub open spec fn fits(v: SigView) -> bool {
        v.params.len() <= MAX_LEN && v.results.len() <= MAX_LEN
    }

    /// Builds a signature holding copies of `params` and `results`; fails
    /// with `LengthOverflow` when either list is longer than 65535.
    pub fn new(call_conv: CallConv, params: &[FuncParam], results: &[FuncParam]) -> (r: Result<
        FuncSig,
        BuildError,
    >)
        ensures
            (params@.len() > MAX_LEN || results@.len() > MAX_LEN) <==> r is Err,
            r is Err ==> r == Err::<FuncSig, BuildError>(BuildError::LengthOverflow),
            r is Ok ==> r->Ok_0@ == (SigView { call_conv, params: params@, results: results@ }),
    {
        if params.len() > MAX_LEN || results.len() > MAX_LEN {
            return Err(BuildError::LengthOverflow);
        }
        let params = copy_entries(params);
        let results = copy_entries(results);
        Ok(FuncSig { call_conv, params, results })
    }

    /// The calling convention.
    pub fn call_conv(&self) -> (r: CallConv)
        ensures
            r == self@.call_conv,
    {
        self.call_conv
    }

    /// The parameter list.
    pub fn params(&self) -> (r: &[FuncParam])
        ensures
            r@ == self@.params,
    {
        self.params.as_slice()
    }

    /// The result list.
    pub fn results(&self) -> (r: &[FuncParam])
        ensures
            r@ == self@.results,
    {
        self.results.as_slice()
    }
}

impl Clone for FuncSig {
    /// A deep copy: the clone owns its own lists, equal to those of `self`.
    fn clone(&self) -> (r: Self)
        ensures
            r@ == self@,
    {
        proof {
            use_type_invariant(self);
        }
        FuncSig {
            call_conv: self.call_conv,
            params: copy_entries(self.params.as_slice()),
            results: copy_entries(self.results.as_slice()),
        }
    }
}

} // verus!
