//! Crash reports of plugins, and the file and directory names derived from plugin ids.
use vstd::prelude::*;
use crate::text::{chars_of, string_push};

verus! {

/// What is recorded when a plugin crashes.
pub struct CrashReport {
    pub plugin_id: String,
    pub timestamp: String,
    pub runtime: String,
    pub reason: String,
    pub stack_trace: String,
    pub isolate_state: String,
    pub crash_count: u32,
}

/// A plugin id made safe for a file name: `@` dropped, `/` turned into `-`.
pub open spec fn sanitize_id(s: Seq<char>) -> Seq<char>
    decreases s.len(),
{
    if s.len() == 0 {
        s
    } else {
        let r = sanitize_id(s.drop_last());
        if s.last() == '@' {
            r
        } else if s.last() == '/' {
            r.push('-')
        } else {
            r.push(s.last())
        }
    }
}

/// A text with every `/` turned into `-`.
pub open spec fn slashes_to_dashes(s: Seq<char>) -> Seq<char>
    decreases s.len(),
{
    if s.len() == 0 {
        s
    } else {
        let r = slashes_to_dashes(s.drop_last());
        if s.last() == '/' {
            r.push('-')
        } else {
            r.push(s.last())
        }
    }
}

/// The directory name of a plugin: its id without a leading `@`, with `/` turned into `-`.
pub open spec fn plugin_dir_name_spec(id: Seq<char>) -> Seq<char> {
    if id.len() > 0 && id[0] == '@' {
        slashes_to_dashes(id.drop_first())
    } else {
        slashes_to_dashes(id)
    }
}

/// The directory name of a plugin (`@author/name` becomes `author-name`).
pub fn plugin_dir_name(id: &str) -> (r: String)
    ensures
        r@ == plugin_dir_name_spec(id@),
{
    let cs = chars_of(id);
    let n = cs.len();
    let start: usize = if n > 0 && cs[0] == '@' {
        1
    } else {
        0
    };
    let ghost body = if id@.len() > 0 && id@[0] == '@' {
        id@.drop_first()
    } else {
        id@
    };
    proof {
        assert(body =~= cs@.subrange(start as int, n as int));
    }
    let mut r = String::new();
    let mut i: usize = start;
    proof {
        assert(body.take(0) =~= Seq::<char>::empty());
    }
    while i < n
        invariant
            start <= i <= n,
            n == cs@.len(),
            body =~= cs@.subrange(start as int, n as int),
            r@ == slashes_to_dashes(body.take(i - start)),
        decreases n - i,
    {
        proof {
            assert(body.take(i - start + 1).drop_last() =~= body.take(i - start));
            assert(body.take(i - start + 1).last() == cs@[i as int]);
        }
        if cs[i] == '/' {
            string_push(&mut r, '-');
        } else {
            string_push(&mut r, cs[i]);
        }
        i = i + 1;
    }
    proof {
        assert(body.take(n - start) =~= body);
    }
    r
}

impl CrashReport {
    /// The file name of this report: the sanitized plugin id, `-`, the timestamp, `.json`.
    pub fn file_name(&self) -> (r: String)
        ensures
            r@ == sanitize_id(self.plugin_id@) + seq!['-'] + self.timestamp@ + ".json"@,
    {
        let cs = chars_of(self.plugin_id.as_str());
        let n = cs.len();
        let mut r = String::new();
        for i in 0..n
            invariant
                n == cs@.len(),
                cs@ == self.plugin_id@,
                r@ == sanitize_id(cs@.take(i as int)),
        {
            proof {
                assert(cs@.take(i + 1).drop_last() =~= cs@.take(i as int));
                assert(cs@.take(i + 1).last() == cs@[i as int]);
            }
            if cs[i] == '@' {
            } else if cs[i] == '/' {
                string_push(&mut r, '-');
            } else {
                string_push(&mut r, cs[i]);
            }
        }
        proof {
            assert(cs@.take(n as int) =~= cs@);
        }
        let ghost head = r@;
        string_push(&mut r, '-');
        let ts = chars_of(self.timestamp.as_str());
        let m = ts.len();
        for i in 0..m
            invariant
                m == ts@.len(),
                r@ == head + seq!['-'] + ts@.take(i as int),
        {
            string_push(&mut r, ts[i]);
            proof {
                assert(ts@.take(i + 1) =~= ts@.take(i as int).push(ts@[i as int]));
                assert(r@ =~= head + seq!['-'] + ts@.take(i + 1));
            }
        }
        proof {
            assert(ts@.take(m as int) =~= ts@);
        }
        let ghost mid = r@;
        string_push(&mut r, '.');
        string_push(&mut r, 'j');
        string_push(&mut r, 's');
        string_push(&mut r, 'o');
        string_push(&mut r, 'n');
        proof {
            reveal_strlit(".json");
            assert(r@ =~= mid + ".json"@);
        }
        r
    }
}


/// Whether a file name has the extension `json`, as `Path::extension` reads it: the text
/// after the last `.`, where that `.` is not the name's first character.
pub open spec fn has_json_extension(name: Seq<char>) -> bool {
    exists|i: int|
        0 < i < name.len() && name[i] == '.' && (forall|j: int| i < j < name.len() ==> name[j] != '.')
            && #[trigger] name.subrange(i + 1, name.len() as int) == "json"@
}

/// Whether a file in the crash directory is a crash report: its extension is `json`.
pub fn is_crash_log_name(name: &str) -> (b: bool)
    ensures
        b == has_json_extension(name@),
{
    let cs = chars_of(name);
    let n = cs.len();
    let mut i = n;
    while i > 0 && cs[i - 1] != '.'
        invariant
            i <= n,
            n == cs@.len(),
            cs@ == name@,
            forall|j: int| i <= j < n ==> cs@[j] != '.',
        decreases i,
    {
        i = i - 1;
    }
    // Here either i == 0 (no dot) or cs[i - 1] is the last dot.
    proof {
        reveal_strlit("json");
    }
    if i <= 1 {
        proof {
            if i == 1 {
                assert forall|k: int| 0 < k < n && cs@[k] == '.' implies exists|j: int| k < j < n && cs@[j] == '.' by {
                    assert(false);
                }
            }
            assert forall|k: int|
                0 < k < name@.len() && name@[k] == '.' && (forall|j: int| k < j < name@.len() ==> name@[j] != '.')
                implies #[trigger] name@.subrange(k + 1, name@.len() as int) != "json"@ by {
                assert(k >= i);
                assert(false);
            }
        }
        return false;
    }
    let dot = i - 1;
    let ok = n - dot == 5 && cs[dot + 1] == 'j' && cs[dot + 2] == 's' && cs[dot + 3] == 'o' && cs[dot + 4] == 'n';
    proof {
        assert(cs@[dot as int] == '.');
        if ok {
            assert(name@.subrange(dot + 1, n as int) =~= "json"@);
        } else {
            assert forall|k: int|
                0 < k < name@.len() && name@[k] == '.' && (forall|j: int| k < j < name@.len() ==> name@[j] != '.')
                implies #[trigger] name@.subrange(k + 1, name@.len() as int) != "json"@ by {
                if k < dot {
                    assert(name@[dot as int] == '.');
                }
                assert(k == dot);
                if n - dot == 5 {
                    let t = name@.subrange(k + 1, name@.len() as int);
                    if t == "json"@ {
                        assert(t[0] == 'j' && t[1] == 's' && t[2] == 'o' && t[3] == 'n');
                    }
                } else {
                    assert(name@.subrange(k + 1, name@.len() as int).len() != 4);
                }
            }
        }
    }
    ok
}

} // verus!
