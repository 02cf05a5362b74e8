//! Description of a shell command to run: the command line, an optional
//! working directory, and environment variables.
//!
//! This is only the data and its builders; actually spawning the process is
//! the host's business.

use vstd::prelude::*;

use crate::strings::str_eq;

verus! {

/// A shell command with its working directory and environment.
pub struct Cmd {
    pub cwd: Option<String>,
    pub env: Vec<(String, String)>,
    pub command: String,
}

/// `env` with `key` bound to `value`: the first entry carrying `key` is
/// replaced, or the pair is appended if no entry carries it.
pub open spec fn env_set(
    env: Seq<(String, String)>,
    key: String,
    value: String,
) -> Seq<(String, String)>
    decreases env.len(),
{
    if env.len() == 0 {
        seq![(key, value)]
    } else if env[0].0@ == key@ {
        seq![(key, value)] + env.drop_first()
    } else {
        seq![env[0]] + env_set(env.drop_first(), key, value)
    }
}

/// Binding a key only rewrites the part of the environment from the first
/// entry carrying it.
proof fn lemma_env_set_skip(env: Seq<(String, String)>, key: String, value: String, i: int)
    requires
        0 <= i <= env.len(),
        forall|j: int| 0 <= j < i ==> (#[trigger] env[j]).0@ != key@,
    ensures
        env_set(env, key, value) == env.take(i) + env_set(env.skip(i), key, value),
    decreases i,
{
    if i == 0 {
        assert(env.skip(0) =~= env);
        assert(env.take(0) + env_set(env, key, value) =~= env_set(env, key, value));
    } else {
        lemma_env_set_skip(env.drop_first(), key, value, i - 1);
        assert(env.drop_first().skip(i - 1) =~= env.skip(i));
        assert(env.drop_first().take(i - 1) =~= env.take(i).drop_first());
        assert(seq![env[0]] + (env.take(i).drop_first() + env_set(env.skip(i), key, value))
            =~= env.take(i) + env_set(env.skip(i), key, value));
    }
}

impl Cmd {
    /// Create a new wrapper with the command that should be executed.
    pub fn new(command: String) -> (r: Cmd)
        ensures
            r.command == command,
            r.cwd is None,
            r.env@ == Seq::<(String, String)>::empty(),
    {
        Cmd { command, env: Vec::new(), cwd: None }
    }

    /// Set the current working directory of the process.
    pub fn cwd(self, dir: String) -> (r: Cmd)
        ensures
            r.command == self.command,
            r.env == self.env,
            r.cwd == Some(dir),
    {
        Cmd { cwd: Some(dir), ..self }
    }

    /// Set an environment variable of the process.  A variable already set
    /// is overwritten.
    pub fn env(self, key: String, value: String) -> (r: Cmd)
        ensures
            r.command == self.command,
            r.cwd == self.cwd,
            r.env@ == env_set(self.env@, key, value),
    {
        let mut this = self;
        let ghost env0 = this.env@;
        let n = this.env.len();
        let mut i: usize = 0;
        while i < n
            invariant
                i <= n,
                n == this.env@.len(),
                this == (Cmd { env: this.env, ..self }),
                this.env@ == env0,
                env0 == self.env@,
                forall|j: int| 0 <= j < i ==> (#[trigger] env0[j]).0@ != key@,
            decreases n - i,
        {
            if str_eq(this.env[i].0.as_str(), key.as_str()) {
                proof {
                    lemma_env_set_skip(env0, key, value, i as int);
                    assert(env0.skip(i as int)[0] == env0[i as int]);
                }
                this.env.remove(i);
                this.env.insert(i, (key, value));
                proof {
                    assert(env0.skip(i as int).drop_first() =~= env0.skip(i + 1));
                    assert(env_set(env0.skip(i as int), key, value) == seq![(key, value)]
                        + env0.skip(i + 1));
                    assert(this.env@ =~= env0.take(i as int) + (seq![(key, value)] + env0.skip(
                        i + 1,
                    )));
                    assert(this.env@ == env_set(env0, key, value));
                }
                return this;
            }
            i = i + 1;
        }
        proof {
            lemma_env_set_skip(env0, key, value, n as int);
            assert(env0.skip(n as int) =~= Seq::<(String, String)>::empty());
            assert(env0.take(n as int) =~= env0);
        }
        this.env.push((key, value));
        proof {
            assert(this.env@ =~= env0 + seq![(key, value)]);
        }
        this
    }
}

} // verus!
