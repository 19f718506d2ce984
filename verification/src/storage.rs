//! Temporary storage beside a destination, allowing a completed file to be renamed into place.
use vstd::prelude::*;

use crate::path;
use crate::text;

verus! {

/// How many names are tried for one directory.
pub const ATTEMPTS: usize = 100;

/// A directory that was created for temporary files.
pub struct ScratchDir {
    pub path: String,
}

/// What came of creating a directory.
pub enum Creation {
    Created,
    /// Something of that name is there already.
    AlreadyExists,
    Failed(String),
}

/// What follows from it.
pub enum Attempt {
    Done(ScratchDir),
    /// Try the next name.
    Again,
    GivenUp(String),
}

pub open spec fn scratch_text(parent: Seq<char>, process: nat, n: nat) -> Seq<char> {
    path::joined(parent, ".gdkit-tmp-"@ + text::decimal(process) + "-"@ + text::decimal(n))
}

/// The `n`-th directory that a process creates in `parent`.
pub fn scratch_path(parent: &str, process: u32, n: u64) -> (r: String)
    ensures
        r@ == scratch_text(parent@, process as nat, n as nat),
{
    let mut name = ".gdkit-tmp-".to_string();
    name.append(text::decimal_text(process as u64).as_str());
    name.append("-");
    name.append(text::decimal_text(n).as_str());
    path::join(parent, name.as_str())
}

impl ScratchDir {
    /// Take note of an attempt to create the directory at `path`, after `tried` earlier ones: a
    /// name that is taken is passed over, as long as there are attempts left.
    pub fn new(path: String, tried: usize, outcome: Creation) -> (r: Attempt)
        ensures
            match outcome {
                Creation::Created => r == Attempt::Done(ScratchDir { path }),
                Creation::AlreadyExists => if tried + 1 < ATTEMPTS {
                    r == Attempt::Again
                } else {
                    r is GivenUp && r->GivenUp_0@ == "cannot allocate temporary storage"@
                },
                Creation::Failed(e) => r == Attempt::GivenUp(e),
            },
    {
        match outcome {
            Creation::Created => Attempt::Done(ScratchDir { path }),
            Creation::AlreadyExists => if tried < ATTEMPTS - 1 {
                Attempt::Again
            } else {
                Attempt::GivenUp("cannot allocate temporary storage".to_string())
            },
            Creation::Failed(e) => Attempt::GivenUp(e),
        }
    }

    pub fn path(&self) -> (r: &str)
        ensures
            r@ == self.path@,
    {
        self.path.as_str()
    }
}

proof fn lemma_decimal_is_injective(a: nat, b: nat)
    requires
        text::decimal(a) == text::decimal(b),
    ensures
        a == b,
    decreases a,
{
    lemma_decimal_shape(a);
    lemma_decimal_shape(b);
    let x = text::decimal(a);
    assert(x.last() == text::digit_char((a % 10) as int));
    assert(x.last() == text::digit_char((b % 10) as int));
    if a >= 10 && b >= 10 {
        assert(x.drop_last() =~= text::decimal(a / 10));
        assert(x.drop_last() =~= text::decimal(b / 10));
        lemma_decimal_is_injective(a / 10, b / 10);
    }
}

proof fn lemma_decimal_shape(n: nat)
    ensures
        text::decimal(n).len() >= 1,
        text::decimal(n).len() == 1 <==> n < 10,
        text::decimal(n).last() == text::digit_char((n % 10) as int),
        n >= 10 ==> text::decimal(n) == text::decimal(n / 10).push(
            text::digit_char((n % 10) as int),
        ),
    decreases n,
{
    if n >= 10 {
        lemma_decimal_shape(n / 10);
    }
}

/// The directories of one process have names of their own.
pub proof fn law_scratch_names_differ(process: nat, n: nat, m: nat)
    requires
        n != m,
    ensures
        ".gdkit-tmp-"@ + text::decimal(process) + "-"@ + text::decimal(n) != ".gdkit-tmp-"@
            + text::decimal(process) + "-"@ + text::decimal(m),
{
    let front = ".gdkit-tmp-"@ + text::decimal(process) + "-"@;
    if front + text::decimal(n) == front + text::decimal(m) {
        assert((front + text::decimal(n)).skip(front.len() as int) =~= text::decimal(n));
        assert((front + text::decimal(m)).skip(front.len() as int) =~= text::decimal(m));
        lemma_decimal_is_injective(n, m);
    }
}

proof fn lemma_decimal_has_no_dash(n: nat)
    ensures
        text::decimal(n).len() > 0,
        forall|i: int| 0 <= i < text::decimal(n).len() ==> '0' <= #[trigger] text::decimal(n)[i] <= '9',
    decreases n,
{
    if n >= 10 {
        lemma_decimal_has_no_dash(n / 10);
        let front = text::decimal(n / 10);
        assert forall|i: int| 0 <= i < text::decimal(n).len() implies '0' <= #[trigger] text::decimal(
            n,
        )[i] <= '9' by {
            if i < front.len() {
                assert(text::decimal(n)[i] == front[i]);
            }
        }
    }
}

proof fn lemma_a_scratch_name(process: nat, n: nat)
    ensures
        path::is_name(".gdkit-tmp-"@ + text::decimal(process) + "-"@ + text::decimal(n)),
{
    reveal_strlit(".gdkit-tmp-");
    reveal_strlit("-");
    reveal_strlit(".");
    reveal_strlit("..");
    lemma_decimal_has_no_dash(process);
    lemma_decimal_has_no_dash(n);
    let p = text::decimal(process);
    let q = text::decimal(n);
    let name = ".gdkit-tmp-"@ + p + "-"@ + q;
    assert(name.len() > 11 && name[0] == '.' && name[1] == 'g');
    assert("."@.len() == 1 && ".."@.len() == 2);
    assert forall|i: int| 0 <= i < name.len() implies !path::is_separator(#[trigger] name[i]) by {
        if i < 11 {
            assert(name[i] == ".gdkit-tmp-"@[i]);
        } else if i < 11 + p.len() {
            assert(name[i] == p[i - 11]);
        } else if i > 11 + p.len() {
            assert(name[i] == q[i - 12 - p.len()]);
        }
    }
}

/// The directories that processes create in one place have paths of their own: those of two
/// processes, and any two of one.
pub proof fn law_scratch_directories_differ(parent: Seq<char>, p: nat, n: nat, q: nat, m: nat)
    requires
        p != q || n != m,
    ensures
        scratch_text(parent, p, n) != scratch_text(parent, q, m),
{
    reveal_strlit("-");
    lemma_a_scratch_name(p, n);
    lemma_a_scratch_name(q, m);
    lemma_decimal_has_no_dash(p);
    lemma_decimal_has_no_dash(q);
    let front = ".gdkit-tmp-"@;
    let a = text::decimal(p) + seq!['-'] + text::decimal(n);
    let b = text::decimal(q) + seq!['-'] + text::decimal(m);
    let x = front + text::decimal(p) + "-"@ + text::decimal(n);
    let y = front + text::decimal(q) + "-"@ + text::decimal(m);
    path::law_a_name_comes_last(parent, x, y);
    if x == y {
        assert(x.skip(front.len() as int) =~= a);
        assert(y.skip(front.len() as int) =~= b);
        text::law_a_split_is_at_the_first_place(a, text::decimal(p), '-', text::decimal(n));
        text::law_a_split_is_at_the_first_place(b, text::decimal(q), '-', text::decimal(m));
        lemma_decimal_is_injective(p, q);
        lemma_decimal_is_injective(n, m);
    }
}

/// Temporary storage lies in the directory it was asked for, under a name that says whose it is.
pub proof fn law_scratch_lies_in_its_parent(parent: Seq<char>, process: nat, n: nat)
    requires
        !path::is_verbatim(parent),
    ensures
        text::begins(scratch_text(parent, process, n), parent),
        text::finishes(
            scratch_text(parent, process, n),
            ".gdkit-tmp-"@ + text::decimal(process) + "-"@ + text::decimal(n),
        ),
{
    let name = ".gdkit-tmp-"@ + text::decimal(process) + "-"@ + text::decimal(n);
    lemma_a_scratch_name(process, n);
    path::law_a_name_comes_last(parent, name, name);
    assert(!path::is_separator(name[0]));
    path::law_a_relative_piece_stays_under_its_base(parent, name);
}

} // verus!
