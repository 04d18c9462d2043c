use vstd::prelude::*;
use vstd::string::*;

verus! {

/// A built-in function of the language.
#[derive(Debug, Clone, Copy, PartialEq, Eq, Structural)]
pub enum Intrinsic {
    Sqrt,
    Pi,
    Sin,
    Cos,
    Sum,
}

/// The arity of an intrinsic.
#[derive(Debug, Clone, Copy, PartialEq, Eq, Structural)]
pub struct Proto {
    pub arg_count: u32,
}

impl Intrinsic {
    pub open spec fn spec_name(self) -> Seq<char> {
        match self {
            Intrinsic::Sqrt => seq!['s', 'q', 'r', 't'],
            Intrinsic::Pi => seq!['p', 'i'],
            Intrinsic::Sin => seq!['s', 'i', 'n'],
            Intrinsic::Cos => seq!['c', 'o', 's'],
            Intrinsic::Sum => seq!['s', 'u', 'm'],
        }
    }

    pub open spec fn spec_arg_count(self) -> u32 {
        match self {
            Intrinsic::Sqrt => 1,
            Intrinsic::Pi => 0,
            Intrinsic::Sin => 1,
            Intrinsic::Cos => 1,
            Intrinsic::Sum => 3,
        }
    }

    /// The name under which the intrinsic is called.
    pub fn name(self) -> (r: &'static str)
        ensures
            r@ == self.spec_name(),
    {
        match self {
            Intrinsic::Sqrt => {
                proof {
                    reveal_strlit("sqrt");
                }
                "sqrt"
            },
            Intrinsic::Pi => {
                proof {
                    reveal_strlit("pi");
                }
                "pi"
            },
            Intrinsic::Sin => {
                proof {
                    reveal_strlit("sin");
                }
                "sin"
            },
            Intrinsic::Cos => {
                proof {
                    reveal_strlit("cos");
                }
                "cos"
            },
            Intrinsic::Sum => {
                proof {
                    reveal_strlit("sum");
                }
                "sum"
            },
        }
    }

    /// The number of arguments that a call of the intrinsic must pass.
    pub fn proto(self) -> (r: Proto)
        ensures
            r.arg_count == self.spec_arg_count(),
    {
        match self {
            Intrinsic::Sqrt => Proto { arg_count: 1 },
            Intrinsic::Pi => Proto { arg_count: 0 },
            Intrinsic::Sin => Proto { arg_count: 1 },
            Intrinsic::Cos => Proto { arg_count: 1 },
            Intrinsic::Sum => Proto { arg_count: 3 },
        }
    }
}

/// The intrinsic called `name`, if there is one.
pub open spec fn intrinsic_named(name: Seq<char>) -> Option<Intrinsic> {
    if name == Intrinsic::Sqrt.spec_name() {
        Some(Intrinsic::Sqrt)
    } else if name == Intrinsic::Pi.spec_name() {
        Some(Intrinsic::Pi)
    } else if name == Intrinsic::Sin.spec_name() {
        Some(Intrinsic::Sin)
    } else if name == Intrinsic::Cos.spec_name() {
        Some(Intrinsic::Cos)
    } else if name == Intrinsic::Sum.spec_name() {
        Some(Intrinsic::Sum)
    } else {
        None
    }
}

/// The registry of intrinsics that every backend offers.
pub fn standard_intrinsics() -> (r: Vec<Intrinsic>)
    ensures
        r@ == seq![Intrinsic::Sqrt, Intrinsic::Pi, Intrinsic::Sin, Intrinsic::Cos, Intrinsic::Sum],
{
    vec![Intrinsic::Sqrt, Intrinsic::Pi, Intrinsic::Sin, Intrinsic::Cos, Intrinsic::Sum]
}

fn chars_equal(a: &[char], b: &str) -> (r: bool)
    ensures
        r == (a@ == b@),
{
    let n = b.unicode_len();
    if a.len() != n {
        return false;
    }
    let mut k: usize = 0;
    while k < n
        invariant
            n == a@.len(),
            n == b@.len(),
            k <= n,
            a@.subrange(0, k as int) == b@.subrange(0, k as int),
        decreases n - k,
    {
        if a[k] != b.get_char(k) {
            assert(a@[k as int] != b@[k as int]);
            return false;
        }
        assert(a@.subrange(0, k + 1) == a@.subrange(0, k as int).push(a@[k as int]));
        assert(b@.subrange(0, k + 1) == b@.subrange(0, k as int).push(b@[k as int]));
        k = k + 1;
    }
    assert(a@ == a@.subrange(0, n as int));
    assert(b@ == b@.subrange(0, n as int));
    true
}

/// Looks an intrinsic up by the characters of its name.
pub fn lookup_intrinsic(name: &[char]) -> (r: Option<Intrinsic>)
    ensures
        r == intrinsic_named(name@),
{
    let all = standard_intrinsics();
    let mut k: usize = 0;
    while k < all.len()
        invariant
            all@ == seq![Intrinsic::Sqrt, Intrinsic::Pi, Intrinsic::Sin, Intrinsic::Cos, Intrinsic::Sum],
            k <= all.len(),
            forall|j: int| 0 <= j < k ==> name@ != all@[j].spec_name(),
        decreases all.len() - k,
    {
        let i = all[k];
        if chars_equal(name, i.name()) {
            return Some(i);
        }
        k = k + 1;
    }
    None
}

} // verus!
