//! Laws on single frontmatter lines of a SKILL.md document: which key a
//! root line sets, and to what.
use vstd::prelude::*;
use crate::skills::{fm_line, indent, unquote_spec, FmFields};
use crate::text::{is_ws, lead_ws, strip_prefix, trim};

verus! {

/// A line with no whitespace around it that begins with `key` is a root line
/// whose rest after `key` is what follows it.
proof fn lemma_root_line(t: Seq<char>, key: Seq<char>)
    requires
        t.len() > 0,
        !is_ws(t[0]),
        trim(t) == t,
        key.len() <= t.len(),
        t.take(key.len() as int) == key,
    ensures
        indent(t) == 0,
        strip_prefix(trim(t), key) == Some(t.skip(key.len() as int)),
{
    assert(lead_ws(t) == 0);
    assert(t.take(0) =~= Seq::<char>::empty());
}

/// A root line `name: x` sets the name to `x` unquoted and trimmed, and
/// nothing else.
pub proof fn lemma_name_line(f: FmFields, x: Seq<char>)
    requires
        trim("name:"@ + x) == "name:"@ + x,
    ensures
        fm_line(f, "name:"@ + x) == (FmFields { name: Some(unquote_spec(trim(x))), ..f }),
{
    reveal(fm_line);
    reveal_strlit("name:");
    let t = "name:"@ + x;
    assert(!is_ws('n'));
    assert(t.take(5) =~= "name:"@);
    lemma_root_line(t, "name:"@);
    assert(t.skip(5) =~= x);
}

/// A root line `description: x` sets the description to `x` unquoted and
/// trimmed, and nothing else.
pub proof fn lemma_description_line(f: FmFields, x: Seq<char>)
    requires
        trim("description:"@ + x) == "description:"@ + x,
    ensures
        fm_line(f, "description:"@ + x) == (FmFields { description: Some(unquote_spec(trim(x))), ..f }),
{
    reveal(fm_line);
    reveal_strlit("name:");
    reveal_strlit("description:");
    let t = "description:"@ + x;
    assert(!is_ws('d'));
    assert(t.take(12) =~= "description:"@);
    lemma_root_line(t, "description:"@);
    assert(t.skip(12) =~= x);
    assert(t[0] != "name:"@[0]);
}

/// A root line `command-dispatch: x` sets the dispatch mode to `x` unquoted
/// and trimmed, and nothing else.
pub proof fn lemma_dispatch_line(f: FmFields, x: Seq<char>)
    requires
        trim("command-dispatch:"@ + x) == "command-dispatch:"@ + x,
    ensures
        fm_line(f, "command-dispatch:"@ + x) == (FmFields {
            command_dispatch: Some(unquote_spec(trim(x))),
            ..f
        }),
{
    reveal(fm_line);
    reveal_strlit("name:");
    reveal_strlit("description:");
    reveal_strlit("skillKey:");
    reveal_strlit("skill_key:");
    reveal_strlit("user-invocable:");
    reveal_strlit("user_invocable:");
    reveal_strlit("disable-model-invocation:");
    reveal_strlit("disable_model_invocation:");
    reveal_strlit("command-dispatch:");
    let t = "command-dispatch:"@ + x;
    assert(!is_ws('c'));
    assert(t.take(17) =~= "command-dispatch:"@);
    lemma_root_line(t, "command-dispatch:"@);
    assert(t.skip(17) =~= x);
    assert(t[0] != "name:"@[0]);
    assert(t[0] != "description:"@[0]);
    assert(t[0] != "skillKey:"@[0]);
    assert(t[0] != "skill_key:"@[0]);
    assert(t[0] != "user-invocable:"@[0]);
    assert(t[0] != "user_invocable:"@[0]);
    assert(t[0] != "disable-model-invocation:"@[0]);
    assert(t[0] != "disable_model_invocation:"@[0]);
}

/// A root line `command-prompt-template: x` sets the prompt template to `x`
/// unquoted and trimmed when that is not empty, and otherwise changes
/// nothing; no other field changes.
pub proof fn lemma_template_line(f: FmFields, x: Seq<char>)
    requires
        trim("command-prompt-template:"@ + x) == "command-prompt-template:"@ + x,
    ensures
        fm_line(f, "command-prompt-template:"@ + x) == (if unquote_spec(trim(x)).len() > 0 {
            FmFields { command_prompt_template: Some(unquote_spec(trim(x))), ..f }
        } else {
            f
        }),
{
    reveal(fm_line);
    reveal_strlit("name:");
    reveal_strlit("description:");
    reveal_strlit("skillKey:");
    reveal_strlit("skill_key:");
    reveal_strlit("user-invocable:");
    reveal_strlit("user_invocable:");
    reveal_strlit("disable-model-invocation:");
    reveal_strlit("disable_model_invocation:");
    reveal_strlit("command-dispatch:");
    reveal_strlit("command_dispatch:");
    reveal_strlit("command-tool:");
    reveal_strlit("command_tool:");
    reveal_strlit("command-arg-mode:");
    reveal_strlit("command_arg_mode:");
    reveal_strlit("command-arg-placeholder:");
    reveal_strlit("command_arg_placeholder:");
    reveal_strlit("command-arg-options:");
    reveal_strlit("command_arg_options:");
    reveal_strlit("command-prompt-template:");
    let t = "command-prompt-template:"@ + x;
    assert(!is_ws('c'));
    assert(t.take(24) =~= "command-prompt-template:"@);
    lemma_root_line(t, "command-prompt-template:"@);
    assert(t.skip(24) =~= x);
    assert(t[0] != "name:"@[0]);
    assert(t[0] != "description:"@[0]);
    assert(t[0] != "skillKey:"@[0]);
    assert(t[0] != "skill_key:"@[0]);
    assert(t[0] != "user-invocable:"@[0]);
    assert(t[0] != "user_invocable:"@[0]);
    assert(t[0] != "disable-model-invocation:"@[0]);
    assert(t[0] != "disable_model_invocation:"@[0]);
    assert(t[8] != "command-dispatch:"@[8]);
    assert(t[7] != "command_dispatch:"@[7]);
    assert(t[8] != "command-tool:"@[8]);
    assert(t[7] != "command_tool:"@[7]);
    assert(t[8] != "command-arg-mode:"@[8]);
    assert(t[7] != "command_arg_mode:"@[7]);
    assert(t[8] != "command-arg-placeholder:"@[8]);
    assert(t[7] != "command_arg_placeholder:"@[7]);
    assert(t[8] != "command-arg-options:"@[8]);
    assert(t[7] != "command_arg_options:"@[7]);
}

} // verus!
