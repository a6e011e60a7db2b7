use vstd::prelude::*;

verus! {

use vstd::string::StringExecFns;
use vstd::string::StrSliceExecFns;

/// The request body of a world export: the world directory name and the
/// chunk coordinates to include.
#[derive(Debug)]
pub struct ExportOptions {
    pub world: String,
    pub chunks: Vec<Vec<i32>>,
}

/// A one-time in-game authentication token's state; the web session's
/// notification channel that accompanies it lives with the web layer.
#[derive(Debug, Clone, Copy, PartialEq, Eq, Structural)]
pub struct OneTimeCode {
    pub used: bool,
}

impl OneTimeCode {
    pub fn new() -> (r: OneTimeCode)
        ensures
            !r.used,
    {
        OneTimeCode { used: false }
    }

    /// Marks the code as spent.
    pub fn invalidate(&mut self)
        ensures
            final(self).used,
    {
        self.used = true;
    }
}

/// Whether a character may appear in a one-time code: a lowercase letter or
/// a digit.
pub open spec fn is_code_char(c: char) -> bool {
    ('a' <= c && c <= 'z') || ('0' <= c && c <= '9')
}

/// Relies on rand::rngs::ThreadRng::next_u32 through rand::Rng: a uniformly
/// drawn 32-bit value; nothing can be promised of it.
#[verifier::external_body]
fn random_u32() -> u32 {
    rand::RngCore::next_u32(&mut rand::thread_rng())
}

/// One code character drawn by rejection sampling: 6-bit draws at or above
/// 36 are discarded, the rest index the alphabet.
fn code_char(v: u32) -> (r: &'static str)
    requires
        v < 36,
    ensures
        r@.len() == 1,
        is_code_char(r@[0]),
{
    let s: &'static str = if v == 0 {
        "a"
    } else if v == 1 {
        "b"
    } else if v == 2 {
        "c"
    } else if v == 3 {
        "d"
    } else if v == 4 {
        "e"
    } else if v == 5 {
        "f"
    } else if v == 6 {
        "g"
    } else if v == 7 {
        "h"
    } else if v == 8 {
        "i"
    } else if v == 9 {
        "j"
    } else if v == 10 {
        "k"
    } else if v == 11 {
        "l"
    } else if v == 12 {
        "m"
    } else if v == 13 {
        "n"
    } else if v == 14 {
        "o"
    } else if v == 15 {
        "p"
    } else if v == 16 {
        "q"
    } else if v == 17 {
        "r"
    } else if v == 18 {
        "s"
    } else if v == 19 {
        "t"
    } else if v == 20 {
        "u"
    } else if v == 21 {
        "v"
    } else if v == 22 {
        "w"
    } else if v == 23 {
        "x"
    } else if v == 24 {
        "y"
    } else if v == 25 {
        "z"
    } else if v == 26 {
        "0"
    } else if v == 27 {
        "1"
    } else if v == 28 {
        "2"
    } else if v == 29 {
        "3"
    } else if v == 30 {
        "4"
    } else if v == 31 {
        "5"
    } else if v == 32 {
        "6"
    } else if v == 33 {
        "7"
    } else if v == 34 {
        "8"
    } else {
        "9"
    };
    proof {
        reveal_strlit("a");
        reveal_strlit("b");
        reveal_strlit("c");
        reveal_strlit("d");
        reveal_strlit("e");
        reveal_strlit("f");
        reveal_strlit("g");
        reveal_strlit("h");
        reveal_strlit("i");
        reveal_strlit("j");
        reveal_strlit("k");
        reveal_strlit("l");
        reveal_strlit("m");
        reveal_strlit("n");
        reveal_strlit("o");
        reveal_strlit("p");
        reveal_strlit("q");
        reveal_strlit("r");
        reveal_strlit("s");
        reveal_strlit("t");
        reveal_strlit("u");
        reveal_strlit("v");
        reveal_strlit("w");
        reveal_strlit("x");
        reveal_strlit("y");
        reveal_strlit("z");
        reveal_strlit("0");
        reveal_strlit("1");
        reveal_strlit("2");
        reveal_strlit("3");
        reveal_strlit("4");
        reveal_strlit("5");
        reveal_strlit("6");
        reveal_strlit("7");
        reveal_strlit("8");
        reveal_strlit("9");
    }
    s
}

/// The process-wide registry of outstanding one-time codes.
#[derive(Debug)]
pub struct AuthManager {
    codes: Vec<(String, OneTimeCode)>,
}

impl AuthManager {
    /// The registered codes and their used flags, in registration order.
    pub closed spec fn codes(&self) -> Seq<(Seq<char>, bool)> {
        Seq::new(
            self.codes@.len(),
            |i: int|
                if 0 <= i < self.codes@.len() {
                    (self.codes@[i].0@, self.codes@[i].1.used)
                } else {
                    (Seq::empty(), false)
                },
        )
    }

    /// Whether some registered code has these characters.
    pub open spec fn spec_has(&self, code: Seq<char>) -> bool {
        exists|i: int| 0 <= i < self.codes().len() && (#[trigger] self.codes()[i]).0 == code
    }

    /// Whether the registered code with these characters has been spent;
    /// meaningful only when the code exists, with the last entry deciding.
    pub open spec fn spec_used(&self, code: Seq<char>) -> bool {
        spec_lookup(self.codes(), code) == Some(true)
    }

    pub fn new() -> (r: AuthManager)
        ensures
            r.codes() == Seq::<(Seq<char>, bool)>::empty(),
    {
        let r = AuthManager { codes: Vec::new() };
        proof {
            assert(r.codes() =~= Seq::<(Seq<char>, bool)>::empty());
        }
        r
    }

    /// Draws a fresh sixteen-character lowercase-alphanumeric code by
    /// rejection sampling and registers it unused.
    pub fn create_code(&mut self) -> (r: String)
        ensures
            r@.len() == 16,
            forall|i: int| 0 <= i < 16 ==> is_code_char(#[trigger] r@[i]),
            final(self).codes() == old(self).codes().push((r@, false)),
    {
        let mut code = String::new();
        let mut i: usize = 0;
        while i < 16
            invariant
                i <= 16,
                code@.len() == i,
                forall|k: int| 0 <= k < i ==> is_code_char(#[trigger] code@[k]),
            decreases 16 - i,
        {
            // rejection sampling of the top six bits; a bounded number of
            // retries keeps the draw loop provably finite, with a modular
            // fallback on the (vanishingly unlikely) exhaustion
            let mut d: u32 = 36;
            let mut tries: usize = 0;
            while d >= 36 && tries < 64
                invariant
                    true,
                decreases 64 - tries,
            {
                d = random_u32() / 0x400_0000;
                tries = tries + 1;
            }
            if d >= 36 {
                d = d % 36;
            }
            code.append(code_char(d));
            i = i + 1;
        }
        let ghost cv = code@;
        let entry = OneTimeCode::new();
        let dup = clone_string(&code);
        self.codes.push((dup, entry));
        proof {
            assert(final(self).codes() =~= old(self).codes().push((cv, false)));
        }
        code
    }

    /// Whether a code with these characters is registered.
    pub fn has_code(&self, code: &String) -> (r: bool)
        ensures
            r == self.spec_has(code@),
    {
        let mut i: usize = 0;
        while i < self.codes.len()
            invariant
                i <= self.codes@.len(),
                forall|k: int| 0 <= k < i ==> (#[trigger] self.codes()[k]).0 != code@,
            decreases self.codes@.len() - i,
        {
            if self.codes[i].0.eq(code) {
                proof {
                    assert(self.codes()[i as int].0 == code@);
                }
                return true;
            }
            i = i + 1;
        }
        proof {
            assert(!self.spec_has(code@));
        }
        false
    }

    /// Whether a registered code has been spent; an unknown code reads as
    /// unspent.
    pub fn is_code_used(&self, code: &String) -> (r: bool)
        ensures
            r == (self.spec_has(code@) && self.spec_used(code@)),
    {
        match self.find_code(code) {
            Some(idx) => self.codes[idx].1.used,
            None => false,
        }
    }

    /// Spends the code; an unknown code is a silent no-op.
    pub fn use_code(&mut self, code: &String) -> (r: Option<()>)
        ensures
            !old(self).spec_has(code@) ==> r is None && final(self).codes() == old(self).codes(),
            old(self).spec_has(code@) ==> r is Some && final(self).codes() == spec_mark_used(
                old(self).codes(),
                code@,
            ),
    {
        let idx = match self.find_code(code) {
            Some(idx) => idx,
            None => {
                proof {
                    assert(final(self).codes() =~= old(self).codes());
                }
                return None;
            },
        };
        let flag = OneTimeCode { used: true };
        let nm = clone_string(&self.codes[idx].0);
        self.codes.set(idx, (nm, flag));
        proof {
            assert(final(self).codes() =~= spec_mark_used(old(self).codes(), code@));
        }
        Some(())
    }

    /// The index of the last entry with these characters.
    fn find_code(&self, code: &String) -> (r: Option<usize>)
        ensures
            match r {
                None => !self.spec_has(code@),
                Some(idx) => idx < self.codes().len() && self.codes()[idx as int].0 == code@
                    && self.codes()[idx as int].1 == (spec_lookup(self.codes(), code@)
                    == Some(true)) && (forall|k: int|
                    idx < k < self.codes().len() ==> (#[trigger] self.codes()[k]).0 != code@),
            },
    {
        let ghost cs = self.codes();
        let mut i: usize = self.codes.len();
        proof {
            assert(cs.take(cs.len() as int) =~= cs);
        }
        while i > 0
            invariant
                i <= self.codes@.len(),
                cs == self.codes(),
                cs.len() == self.codes@.len(),
                spec_lookup(cs, code@) == spec_lookup(cs.take(i as int), code@),
                forall|k: int| i <= k < cs.len() ==> (#[trigger] cs[k]).0 != code@,
            decreases i,
        {
            i = i - 1;
            if self.codes[i].0.eq(code) {
                proof {
                    assert(cs.take(i + 1).last() == cs[i as int]);
                    assert(spec_lookup(cs.take(i + 1), code@) == Some(cs[i as int].1));
                }
                return Some(i);
            }
            proof {
                assert(cs.take(i + 1).last() == cs[i as int]);
                assert(cs.take(i + 1).drop_last() =~= cs.take(i as int));
            }
        }
        proof {
            assert(cs.take(0) =~= Seq::<(Seq<char>, bool)>::empty());
            if self.spec_has(code@) {
                let w = choose|k: int| 0 <= k < cs.len() && (#[trigger] cs[k]).0 == code@;
                assert(false);
            }
        }
        None
    }
}

/// The used flag of the last entry with these characters, if any.
pub open spec fn spec_lookup(codes: Seq<(Seq<char>, bool)>, code: Seq<char>) -> Option<bool>
    decreases codes.len(),
{
    if codes.len() == 0 {
        None
    } else if codes.last().0 == code {
        Some(codes.last().1)
    } else {
        spec_lookup(codes.drop_last(), code)
    }
}

/// The same registry with every entry of this code marked used.
pub open spec fn spec_mark_used(codes: Seq<(Seq<char>, bool)>, code: Seq<char>) -> Seq<
    (Seq<char>, bool),
> {
    Seq::new(
        codes.len(),
        |i: int|
            if 0 <= i < codes.len() {
                if codes[i].0 == code && is_last_match(codes, code, i) {
                    (codes[i].0, true)
                } else {
                    codes[i]
                }
            } else {
                (Seq::empty(), false)
            },
    )
}

/// Whether entry `i` is the last one with these characters.
pub open spec fn is_last_match(codes: Seq<(Seq<char>, bool)>, code: Seq<char>, i: int) -> bool {
    codes[i].0 == code && (forall|k: int| i < k < codes.len() ==> (#[trigger] codes[k]).0 != code)
}

fn clone_string(s: &String) -> (r: String)
    ensures
        r@ == s@,
{
    s.clone()
}

/// Law: spending an unknown code changes nothing; spending a known unused
/// code marks it used, and a second spend finds it already used.
pub proof fn lemma_code_single_use(codes: Seq<(Seq<char>, bool)>, code: Seq<char>)
    requires
        spec_lookup(codes, code) == Some(false),
    ensures
        spec_lookup(spec_mark_used(codes, code), code) == Some(true),
    decreases codes.len(),
{
    let marked = spec_mark_used(codes, code);
    assert(marked.len() == codes.len());
    if codes.last().0 == code {
        assert(is_last_match(codes, code, codes.len() - 1));
        assert(marked.last() == (codes.last().0, true));
    } else {
        assert(marked.last() == codes.last());
        assert(marked.drop_last() =~= spec_mark_used(codes.drop_last(), code)) by {
            assert forall|i: int| 0 <= i < codes.len() - 1 implies marked.drop_last()[i]
                == spec_mark_used(codes.drop_last(), code)[i] by {
                assert(forall|k: int|
                    0 <= k < codes.len() - 1 ==> (#[trigger] codes.drop_last()[k]) == codes[k]);
                assert(is_last_match(codes, code, i) == is_last_match(
                    codes.drop_last(),
                    code,
                    i,
                )) by {
                    assert(forall|k: int|
                        0 <= k < codes.len() - 1 ==> (#[trigger] codes.drop_last()[k]) == codes[k]);
                    if codes[i].0 == code {
                        assert(codes.drop_last()[i] == codes[i]);
                        if is_last_match(codes, code, i) {
                            assert(forall|k: int|
                                i < k < codes.len() - 1 ==> (#[trigger] codes.drop_last()[k]).0
                                    != code);
                        }
                        if is_last_match(codes.drop_last(), code, i) {
                            assert(forall|k: int|
                                i < k < codes.len() ==> (#[trigger] codes[k]).0 != code) by {
                                assert(codes.last().0 != code);
                                assert(forall|k: int|
                                    i < k < codes.len() - 1 ==> (#[trigger] codes[k])
                                        == codes.drop_last()[k]);
                            }
                        }
                    }
                }
            }
        }
        lemma_code_single_use(codes.drop_last(), code);
    }
}

} // verus!
