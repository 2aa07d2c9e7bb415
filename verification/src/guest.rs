//! The guest's business logic: it collects strings, expanding those that
//! name an environment variable, and gives them back as a list, as lines on
//! a stream, or answers with the text of a record. It sees logical values
//! only, never bytes or pointers.

use crate::env::{var_of, Env};
use crate::framing::NEWLINE;
use crate::stat::{render_stat, stat_text, DescriptorStat};
use vstd::prelude::*;
use vstd::string::StrSliceExecFns;
use vstd::string::StringSliceAdditionalSpecFns;
use vstd::utf8::encode_utf8;

verus! {

/// What the guest keeps for a string it is given: the value of the variable
/// that a leading `$` names, `undefined` where the environment has no such
/// variable or what follows the `$` can name none, and the string itself
/// where it does not start with `$`.
pub open spec fn interpolate(s: Seq<char>, env: Seq<(Seq<char>, Seq<char>)>) -> Seq<char> {
    if s.len() > 0 && s[0] == '$' {
        match var_of(env, s.subrange(1, s.len() as int)) {
            Some(value) => value,
            None => "undefined"@,
        }
    } else {
        s
    }
}

/// What the guest keeps for each of a run of strings.
pub open spec fn interpolate_all(ss: Seq<Seq<char>>, env: Seq<(Seq<char>, Seq<char>)>) -> Seq<
    Seq<char>,
> {
    Seq::new(ss.len(), |i: int| interpolate(ss[i], env))
}

/// The contents of a run of strings.
pub open spec fn strings_of(v: Seq<String>) -> Seq<Seq<char>> {
    Seq::new(v.len(), |i: int| v[i]@)
}

/// The bytes of one line: the string in UTF-8 and a newline.
pub open spec fn line_of(s: Seq<char>) -> Seq<u8> {
    encode_utf8(s).push(NEWLINE)
}

/// The bytes of the first `n` strings, each as a line.
pub open spec fn lines_of(strings: Seq<Seq<char>>, n: nat) -> Seq<u8>
    decreases n,
{
    if n == 0 || n > strings.len() {
        Seq::empty()
    } else {
        lines_of(strings, (n - 1) as nat) + line_of(strings[n - 1])
    }
}

/// Expands one string against the environment.
pub fn expand(s: &str, env: &Env) -> (out: String)
    ensures
        out@ == interpolate(s@, env@),
{
    let n: usize = s.unicode_len();
    if n > 0 && s.get_char(0) == '$' {
        let name = s.substring_char(1, n);
        match env.var(name) {
            Some(value) => value,
            None => "undefined".to_owned(),
        }
    } else {
        s.to_owned()
    }
}

/// The state of one guest instance: the strings collected so far.
pub struct Guest {
    strings: Vec<String>,
}

impl View for Guest {
    type V = Seq<Seq<char>>;

    closed spec fn view(&self) -> Seq<Seq<char>> {
        strings_of(self.strings@)
    }
}

impl Guest {
    /// An instance that has collected nothing.
    pub fn new() -> (guest: Guest)
        ensures
            guest@ == Seq::<Seq<char>>::empty(),
    {
        let guest = Guest { strings: Vec::new() };
        assert(guest@ =~= Seq::<Seq<char>>::empty());
        guest
    }

    /// How many strings were collected.
    pub fn len(&self) -> (n: usize)
        ensures
            n == self@.len(),
    {
        self.strings.len()
    }

    /// Collects `ss`, each expanded against `env`, behind the strings
    /// already collected, and returns how many there are now, as a `u32`.
    pub fn add_strings(&mut self, ss: &Vec<String>, env: &Env) -> (count: u32)
        ensures
            final(self)@ == old(self)@ + interpolate_all(strings_of(ss@), env@),
            count as nat == final(self)@.len() % 0x1_0000_0000,
    {
        let mut i: usize = 0;
        assert(self@ =~= old(self)@ + interpolate_all(strings_of(ss@), env@).take(0));
        while i < ss.len()
            invariant
                i <= ss@.len(),
                self@ == old(self)@ + interpolate_all(strings_of(ss@), env@).take(i as int),
            decreases ss@.len() - i,
        {
            let kept = expand(ss[i].as_str(), env);
            let ghost before = self@;
            self.strings.push(kept);
            proof {
                let all = interpolate_all(strings_of(ss@), env@);
                assert(self@ =~= before.push(all[i as int]));
                assert(all.take(i + 1) =~= all.take(i as int).push(all[i as int]));
                assert(self@ =~= old(self)@ + all.take(i + 1));
            }
            i = i + 1;
        }
        proof {
            let all = interpolate_all(strings_of(ss@), env@);
            assert(all.take(i as int) =~= all);
        }
        let n: u64 = self.strings.len() as u64;
        (n % 0x1_0000_0000) as u32
    }

    /// The strings collected so far, in order.
    pub fn get_strings(&self) -> (out: Vec<String>)
        ensures
            strings_of(out@) == self@,
    {
        let mut out: Vec<String> = Vec::new();
        let mut i: usize = 0;
        while i < self.strings.len()
            invariant
                i <= self.strings@.len(),
                out@.len() == i,
                forall|k: int| 0 <= k < i ==> (#[trigger] out@[k])@ == self.strings@[k]@,
            decreases self.strings@.len() - i,
        {
            out.push(self.strings[i].clone());
            i = i + 1;
        }
        assert(strings_of(out@) =~= self@);
        out
    }

    /// The bytes of line `k`: string `k` and a newline.
    pub fn line(&self, k: usize) -> (bytes: Vec<u8>)
        requires
            k < self@.len(),
        ensures
            bytes@ == line_of(self@[k as int]),
    {
        let mut bytes: Vec<u8> = Vec::new();
        bytes.extend_from_slice(self.strings[k].as_str().as_bytes());
        bytes.push(NEWLINE);
        bytes
    }

    /// Writes every string collected so far to `sink`, each as a line.
    pub fn write_strings_to(&self, sink: &mut Vec<u8>)
        ensures
            final(sink)@ == old(sink)@ + lines_of(self@, self@.len()),
    {
        let mut i: usize = 0;
        assert(sink@ =~= old(sink)@ + lines_of(self@, 0));
        while i < self.strings.len()
            invariant
                i <= self.strings@.len() == self@.len(),
                sink@ == old(sink)@ + lines_of(self@, i as nat),
            decreases self.strings@.len() - i,
        {
            let ghost before = sink@;
            let line = self.line(i);
            sink.extend_from_slice(line.as_slice());
            proof {
                assert(sink@ =~= old(sink)@ + (lines_of(self@, i as nat) + line_of(self@[i as int])));
            }
            i = i + 1;
        }
    }

    /// The text that determines every field of `stat`.
    pub fn pass_an_imported_record(stat: DescriptorStat) -> (text: String)
        ensures
            text@ == stat_text(stat),
    {
        render_stat(&stat)
    }
}

} // verus!
