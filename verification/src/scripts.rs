//! The JavaScript the host runs inside plugin isolates: the check that refuses ES
//! modules in v1 plugin code, and the small scripts that tag an isolate with its plugin,
//! deliver widget events, drops and configuration changes. Running them is left to the
//! application, which holds the isolates.
use vstd::prelude::*;
use crate::json_text::{json_text_value, json_value_text, parse_json, to_json_text};
use crate::text::{chars_of, push_str, string_from_chars, string_push, trim, trim_chars};

verus! {

/// The lines of `s`: the pieces between its `\n` characters (one more piece than there
/// are newlines).
pub open spec fn split_lines(s: Seq<char>) -> Seq<Seq<char>>
    decreases s.len(),
{
    if s.len() == 0 {
        seq![Seq::<char>::empty()]
    } else {
        let r = split_lines(s.drop_last());
        if s.last() == '\n' {
            r.push(Seq::<char>::empty())
        } else {
            r.update(r.len() - 1, r.last().push(s.last()))
        }
    }
}

proof fn lemma_split_lines_nonempty(s: Seq<char>)
    ensures
        split_lines(s).len() >= 1,
    decreases s.len(),
{
    if s.len() > 0 {
        lemma_split_lines_nonempty(s.drop_last());
    }
}

/// `s` begins with `p`.
pub open spec fn starts_with(s: Seq<char>, p: Seq<char>) -> bool {
    s.len() >= p.len() && s.take(p.len() as int) == p
}

/// A trimmed line that is an ES module statement: it begins with `import ` or `export `.
pub open spec fn is_module_line(t: Seq<char>) -> bool {
    starts_with(t, "import "@) || starts_with(t, "export "@)
}

/// The first line of `code` that, trimmed, is an ES module statement, trimmed.
/// (A `\r` before a newline is whitespace, so it is trimmed away with the rest.)
pub open spec fn first_module_line(code: Seq<char>) -> Option<Seq<char>> {
    let lines = split_lines(code);
    if exists|i: int| 0 <= i < lines.len() && is_module_line(#[trigger] trim(lines[i])) {
        let i = choose|i: int|
            0 <= i < lines.len() && is_module_line(#[trigger] trim(lines[i])) && forall|j: int|
                0 <= j < i ==> !is_module_line(#[trigger] trim(lines[j]));
        Some(trim(lines[i]))
    } else {
        None
    }
}

/// Why plugin code was refused.
#[derive(Debug, PartialEq, Eq)]
pub enum ScriptError {
    /// v1 plugins are single scripts: this `import`/`export` line is not supported
    /// (bundle multi-file plugins into one file first).
    ModuleSyntax(String),
}

fn split_on_newlines(t: &Vec<char>) -> (parts: Vec<Vec<char>>)
    ensures
        parts@.len() == split_lines(t@).len(),
        forall|i: int| 0 <= i < parts@.len() ==> #[trigger] parts@[i]@ == split_lines(t@)[i],
{
    let mut parts: Vec<Vec<char>> = Vec::new();
    let mut cur: Vec<char> = Vec::new();
    let n = t.len();
    for i in 0..n
        invariant
            n == t@.len(),
            parts@.len() + 1 == split_lines(t@.take(i as int)).len(),
            forall|j: int| 0 <= j < parts@.len() ==> #[trigger] parts@[j]@ == split_lines(t@.take(i as int))[j],
            cur@ == split_lines(t@.take(i as int)).last(),
    {
        proof {
            lemma_split_lines_nonempty(t@.take(i as int));
            assert(t@.take(i + 1).drop_last() =~= t@.take(i as int));
        }
        let c = t[i];
        if c == '\n' {
            let done = cur;
            parts.push(done);
            cur = Vec::new();
            proof {
                assert(cur@ =~= Seq::<char>::empty());
            }
        } else {
            cur.push(c);
        }
    }
    proof {
        assert(t@.take(n as int) =~= t@);
    }
    parts.push(cur);
    parts
}

fn starts_with_chars(s: &Vec<char>, p: &str) -> (r: bool)
    ensures
        r == starts_with(s@, p@),
{
    let ps = chars_of(p);
    if s.len() < ps.len() {
        return false;
    }
    let n = ps.len();
    for i in 0..n
        invariant
            n == ps@.len(),
            n <= s@.len(),
            ps@ == p@,
            forall|j: int| 0 <= j < i ==> s@[j] == ps@[j],
    {
        if s[i] != ps[i] {
            proof {
                assert(s@.take(n as int)[i as int] != p@[i as int]);
            }
            return false;
        }
    }
    proof {
        assert(s@.take(n as int) =~= p@);
    }
    true
}

/// Refuses plugin code with an ES module statement: the first line that, trimmed,
/// begins with `import ` or `export ` is reported, trimmed. Only whole lines are looked
/// at, so such words inside a string literal at the start of a line are refused too.
pub fn check_module_syntax(code: &str) -> (r: Result<(), ScriptError>)
    ensures
        match first_module_line(code@) {
            None => r is Ok,
            Some(line) => r matches Err(ScriptError::ModuleSyntax(l)) && l@ == line,
        },
{
    let cs = chars_of(code);
    let lines = split_on_newlines(&cs);
    let ghost ls = split_lines(code@);
    let n = lines.len();
    for i in 0..n
        invariant
            n == ls.len(),
            n == lines@.len(),
            ls == split_lines(code@),
            forall|j: int| 0 <= j < n ==> #[trigger] lines@[j]@ == ls[j],
            forall|j: int| 0 <= j < i ==> !is_module_line(#[trigger] trim(ls[j])),
    {
        let t = trim_chars(lines[i].as_slice());
        if starts_with_chars(&t, "import ") || starts_with_chars(&t, "export ") {
            proof {
                assert(is_module_line(trim(ls[i as int])));
                let k = choose|k: int|
                    0 <= k < ls.len() && is_module_line(#[trigger] trim(ls[k])) && forall|j: int|
                        0 <= j < k ==> !is_module_line(#[trigger] trim(ls[j]));
                if k < i {
                } else if k > i {
                    assert(!is_module_line(trim(ls[i as int])));
                }
                assert(k == i);
            }
            return Err(ScriptError::ModuleSyntax(string_from_chars(t.as_slice())));
        }
    }
    Ok(())
}

/// `s` with each `'` preceded by a backslash, for use inside a single-quoted JavaScript
/// string.
pub open spec fn escape_quotes(s: Seq<char>) -> Seq<char>
    decreases s.len(),
{
    if s.len() == 0 {
        Seq::empty()
    } else {
        escape_quotes(s.drop_last()) + (if s.last() == '\'' {
            seq!['\\', '\'']
        } else {
            seq![s.last()]
        })
    }
}

fn push_escaped(out: &mut String, s: &str)
    ensures
        final(out)@ == old(out)@ + escape_quotes(s@),
{
    let cs = chars_of(s);
    let n = cs.len();
    for i in 0..n
        invariant
            n == cs@.len(),
            cs@ == s@,
            out@ == old(out)@ + escape_quotes(cs@.take(i as int)),
    {
        proof {
            assert(cs@.take(i + 1).drop_last() =~= cs@.take(i as int));
        }
        if cs[i] == '\'' {
            string_push(out, '\\');
            string_push(out, '\'');
        } else {
            string_push(out, cs[i]);
        }
        proof {
            assert(out@ =~= old(out)@ + escape_quotes(cs@.take(i + 1)));
        }
    }
    proof {
        assert(cs@.take(n as int) =~= cs@);
    }
}


/// After escaping, each `'` of the text comes right after a backslash, and nothing is
/// dropped (the text only grows). Backslashes are not escaped, so a `\` just before a
/// quote in the input still pairs with the added one.
pub proof fn lemma_escaped_quotes(s: Seq<char>)
    ensures
        forall|i: int| 0 <= i < escape_quotes(s).len() && #[trigger] escape_quotes(s)[i] == '\'' ==> i > 0
            && escape_quotes(s)[i - 1] == '\\',
        escape_quotes(s).len() >= s.len(),
    decreases s.len(),
{
    if s.len() > 0 {
        let s0 = s.drop_last();
        lemma_escaped_quotes(s0);
        let e0 = escape_quotes(s0);
        let e = escape_quotes(s);
        assert forall|i: int| 0 <= i < e.len() && #[trigger] e[i] == '\'' implies i > 0 && e[i - 1] == '\\' by {
            if i < e0.len() {
                assert(e[i] == e0[i]);
                assert(e[i - 1] == e0[i - 1]);
            }
        }
    }
}

/// The script that tags an isolate with its plugin, for the origin of its log lines.
pub open spec fn plugin_id_script(plugin_id: Seq<char>) -> Seq<char> {
    "globalThis.__pluginId = '"@ + escape_quotes(plugin_id) + "';"@
}

/// Builds `plugin_id_script`.
pub fn set_plugin_id_script(plugin_id: &str) -> (r: String)
    ensures
        r@ == plugin_id_script(plugin_id@),
{
    let mut s = String::new();
    push_str(&mut s, "globalThis.__pluginId = '");
    push_escaped(&mut s, plugin_id);
    push_str(&mut s, "';");
    proof {
        assert(s@ =~= plugin_id_script(plugin_id@));
    }
    s
}

/// The script that calls the SDK's event dispatcher for a widget event.
pub open spec fn fire_event_text(widget_id: Seq<char>, event: Seq<char>) -> Seq<char> {
    "__fireEvent('"@ + escape_quotes(widget_id) + "', '"@ + escape_quotes(event) + "');"@
}

/// Builds `fire_event_text`.
pub fn fire_event_script(widget_id: &str, event: &str) -> (r: String)
    ensures
        r@ == fire_event_text(widget_id@, event@),
{
    let mut s = String::new();
    push_str(&mut s, "__fireEvent('");
    push_escaped(&mut s, widget_id);
    push_str(&mut s, "', '");
    push_escaped(&mut s, event);
    push_str(&mut s, "');");
    proof {
        assert(s@ =~= fire_event_text(widget_id@, event@));
    }
    s
}

/// The script that runs a widget's handler for an event if the isolate owns the widget,
/// and evaluates to whether it does.
pub open spec fn try_fire_event_text(widget_id: Seq<char>, event: Seq<char>) -> Seq<char> {
    "(function() { var w = globalThis.__widgets['"@ + escape_quotes(widget_id)
        + "']; if (w) { var cb = w['_"@ + escape_quotes(event)
        + "']; if (typeof cb === 'function') cb(); return true; } return false; })()"@
}

/// Builds `try_fire_event_text`.
pub fn try_fire_event_script(widget_id: &str, event: &str) -> (r: String)
    ensures
        r@ == try_fire_event_text(widget_id@, event@),
{
    let mut s = String::new();
    push_str(&mut s, "(function() { var w = globalThis.__widgets['");
    push_escaped(&mut s, widget_id);
    push_str(&mut s, "']; if (w) { var cb = w['_");
    push_escaped(&mut s, event);
    push_str(&mut s, "']; if (typeof cb === 'function') cb(); return true; } return false; })()");
    proof {
        assert(s@ =~= try_fire_event_text(widget_id@, event@));
    }
    s
}

/// The script that hands the dropped paths (their JSON text) to a widget's drop handler.
/// The widget id is inserted as it is.
pub open spec fn drop_event_text(widget_id: Seq<char>, paths_json: Seq<char>) -> Seq<char> {
    "(function(){ var w=globalThis.__widgets['"@ + widget_id
        + "']; if(w&&typeof w._onDrop==='function') w._onDrop("@ + paths_json + "); })()"@
}

/// Builds `drop_event_text`.
pub fn drop_event_script(widget_id: &str, paths_json: &str) -> (r: String)
    ensures
        r@ == drop_event_text(widget_id@, paths_json@),
{
    let mut s = String::new();
    push_str(&mut s, "(function(){ var w=globalThis.__widgets['");
    push_str(&mut s, widget_id);
    push_str(&mut s, "']; if(w&&typeof w._onDrop==='function') w._onDrop(");
    push_str(&mut s, paths_json);
    push_str(&mut s, "); })()");
    proof {
        assert(s@ =~= drop_event_text(widget_id@, paths_json@));
    }
    s
}

/// The script that merges a new configuration (the JSON text of a value that parsed)
/// into the plugin's `config` and calls its `onConfigChange` handler if it has one.
pub open spec fn config_update_text(config_json: Seq<char>) -> Seq<char> {
    "(function(){ var cfg="@ + config_json
        + "; for(var k in cfg){ config[k]=cfg[k]; } if(typeof onConfigChange==='function') onConfigChange(); })()"@
}

/// Builds `config_update_text`.
pub fn config_update_script(config_json: &str) -> (r: String)
    ensures
        r@ == config_update_text(config_json@),
{
    let mut s = String::new();
    push_str(&mut s, "(function(){ var cfg=");
    push_str(&mut s, config_json);
    push_str(
        &mut s,
        "; for(var k in cfg){ config[k]=cfg[k]; } if(typeof onConfigChange==='function') onConfigChange(); })()",
    );
    proof {
        assert(s@ =~= config_update_text(config_json@));
    }
    s
}

/// The configuration script for a configuration given as JSON text: the text is read
/// with `serde_json` and printed again compactly, so that only a JSON value reaches the
/// script. `None` when the text is not JSON.
pub fn config_update_from_text(config_json: &str) -> (r: Option<String>)
    ensures
        match json_text_value(config_json@) {
            Some(v) => r matches Some(s) && s@ == config_update_text(json_value_text(v)),
            None => r is None,
        },
{
    match parse_json(config_json) {
        Some(v) => {
            let text = to_json_text(&v);
            Some(config_update_script(text.as_str()))
        },
        None => None,
    }
}

} // verus!
