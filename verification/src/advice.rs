//! What the rule advisor sends to the model and what it keeps of the reply:
//! a one-line summary per context event, the prompt around them, and the
//! TOML rules block found in the reply, kept only when it parses.
use vstd::prelude::*;
use crate::config::AiAdvisorConfig;
use crate::event::{action_name, EventType, NormalizedEvent};
use crate::slow_path::join;
use crate::text::{
    chars_of, contains, decimal, has_infix, has_prefix, lines, lines_of, push_chars, push_char,
    push_decimal, push_str, starts_with, string_of, string_texts, trim, trim_bounds, trim_chars,
    trim_start,
};

verus! {

broadcast use vstd::string::group_string_axioms;

// ── Event summaries ─────────────────────────────────────────────────────

/// What `{:?}` prints for a string: the text in double quotes with escapes.
/// Only the standard library's formatting decides it.
pub uninterp spec fn debug_text(s: Seq<char>) -> Seq<char>;

/// `format!("{:?}", s)` for a string slice.
#[verifier::external_body]
fn debug_string(s: &str) -> (r: String)
    ensures
        r@ == debug_text(s@),
{
    format!("{:?}", s)
}

/// The event kind as the summary line writes it.
pub open spec fn summary_kind(t: EventType) -> Seq<char> {
    match t {
        EventType::FileAccess { path, .. } => "file_access path="@ + path@,
        EventType::Network { port, remote_ip, .. } => "network remote="@ + remote_ip@ + ":"@
            + decimal(port as nat),
        EventType::Exec => "exec"@,
        EventType::Privilege { syscall, .. } => "privilege syscall="@ + syscall@,
        EventType::Signal { signum, .. } => "signal sig="@ + decimal(signum as nat),
    }
}

/// `{:?}` of the rule name: `Some("<name>")` or `None`.
pub open spec fn rule_debug(r: Option<String>) -> Seq<char> {
    match r {
        Some(n) => "Some("@ + debug_text(n@) + ")"@,
        None => "None"@,
    }
}

/// One context event for the prompt:
/// `binary=<b> uid=<u> action=<a> type=<kind> rule=<rule>`.
pub open spec fn summary_line(e: NormalizedEvent) -> Seq<char> {
    "binary="@ + e.process.binary@ + " uid="@ + decimal(e.process.uid as nat) + " action="@
        + action_name(e.action) + " type="@ + summary_kind(e.event_type) + " rule="@ + rule_debug(
        e.rule_name,
    )
}

fn push_summary_kind(s: &mut String, t: &EventType)
    ensures
        final(s)@ == old(s)@ + summary_kind(*t),
{
    let ghost start = old(s)@;
    match t {
        EventType::FileAccess { path, .. } => {
            push_str(s, "file_access path=");
            push_str(s, path.as_str());
        },
        EventType::Network { port, remote_ip, .. } => {
            push_str(s, "network remote=");
            push_str(s, remote_ip.as_str());
            push_str(s, ":");
            push_decimal(s, *port as u128);
        },
        EventType::Exec => push_str(s, "exec"),
        EventType::Privilege { syscall, .. } => {
            push_str(s, "privilege syscall=");
            push_str(s, syscall.as_str());
        },
        EventType::Signal { signum, .. } => {
            push_str(s, "signal sig=");
            push_decimal(s, *signum as u128);
        },
    }
    assert(s@ =~= start + summary_kind(*t));
}

fn push_rule_debug(s: &mut String, r: &Option<String>)
    ensures
        final(s)@ == old(s)@ + rule_debug(*r),
{
    let ghost start = old(s)@;
    match r {
        Some(n) => {
            push_str(s, "Some(");
            let d = debug_string(n.as_str());
            push_str(s, d.as_str());
            push_str(s, ")");
        },
        None => push_str(s, "None"),
    }
    assert(s@ =~= start + rule_debug(*r));
}

/// The summary line of one event.
pub fn event_summary(e: &NormalizedEvent) -> (r: String)
    ensures
        r@ == summary_line(*e),
{
    let mut s = String::new();
    push_str(&mut s, "binary=");
    push_str(&mut s, e.process.binary.as_str());
    push_str(&mut s, " uid=");
    push_decimal(&mut s, e.process.uid as u128);
    push_str(&mut s, " action=");
    push_str(&mut s, e.action.name());
    push_str(&mut s, " type=");
    let ghost head = s@;
    push_summary_kind(&mut s, &e.event_type);
    push_str(&mut s, " rule=");
    push_rule_debug(&mut s, &e.rule_name);
    assert(s@ =~= summary_line(*e));
    s
}

// ── The prompt ──────────────────────────────────────────────────────────

pub open spec fn prompt_head() -> Seq<char> {
    "You are a security rule advisor for VectorGuard, an eBPF-based security monitoring tool.\n\nCurrent fast-path rules (TOML):\n```toml\n"@
}

pub open spec fn prompt_middle() -> Seq<char> {
    "```\n\nRecent anomalous events (repeated pattern detected):\n"@
}

pub open spec fn prompt_tail() -> Seq<char> {
    "\n\nBased on this pattern, suggest 1-3 new security rules. Use this TOML structure (all match fields are optional, AND-combined):\n```toml\n[[rules]]\nname              = \"rule-name\"      # unique, kebab-case\naction            = \"alert\"           # block | alert | log\nmatch_process     = [\"binary\"]        # process comm name globs\nmatch_path_prefix = [\"/path/\"]       # file path prefixes\nmatch_exec_path   = [\"/bin/sh\"]      # executed binary path prefixes\nmatch_port        = [4444]             # destination ports\nmatch_uid         = 0                  # user ID\n```\nReply with only the TOML block(s), no commentary."@
}

/// The summary lines of the context events, in order.
pub open spec fn summaries(ctx: Seq<NormalizedEvent>) -> Seq<Seq<char>> {
    ctx.map_values(|e: NormalizedEvent| summary_line(e))
}

/// The prompt: the current rules, then the context events one per line,
/// then the rule format to answer in.
pub open spec fn prompt_text(rules: Seq<char>, ctx: Seq<NormalizedEvent>) -> Seq<char> {
    prompt_head() + rules + prompt_middle() + join(summaries(ctx), "\n"@) + prompt_tail()
}

/// The prompt for the given current rules and context events.
pub fn advice_prompt(current_rules: &str, context: &Vec<NormalizedEvent>) -> (r: String)
    ensures
        r@ == prompt_text(current_rules@, context@),
{
    let mut s = String::new();
    push_str(
        &mut s,
        "You are a security rule advisor for VectorGuard, an eBPF-based security monitoring tool.\n\nCurrent fast-path rules (TOML):\n```toml\n",
    );
    push_str(&mut s, current_rules);
    push_str(&mut s, "```\n\nRecent anomalous events (repeated pattern detected):\n");
    let ghost before = s@;
    let ghost sums = summaries(context@);
    let mut i: usize = 0;
    while i < context.len()
        invariant
            i <= context@.len(),
            sums == summaries(context@),
            s@ == before + join(sums.take(i as int), "\n"@),
        decreases context.len() - i,
    {
        proof {
            assert(sums.take(i + 1).drop_last() =~= sums.take(i as int));
            assert(sums.take(i + 1).last() == summary_line(context@[i as int]));
        }
        if i > 0 {
            push_str(&mut s, "\n");
        }
        let line = event_summary(&context[i]);
        push_str(&mut s, line.as_str());
        proof {
            if i == 0 {
                assert(sums.take(1).len() == 1);
            }
            assert(s@ =~= before + join(sums.take(i + 1), "\n"@));
        }
        i += 1;
    }
    assert(sums.take(context@.len() as int) =~= sums);
    push_str(
        &mut s,
        "\n\nBased on this pattern, suggest 1-3 new security rules. Use this TOML structure (all match fields are optional, AND-combined):\n```toml\n[[rules]]\nname              = \"rule-name\"      # unique, kebab-case\naction            = \"alert\"           # block | alert | log\nmatch_process     = [\"binary\"]        # process comm name globs\nmatch_path_prefix = [\"/path/\"]       # file path prefixes\nmatch_exec_path   = [\"/bin/sh\"]      # executed binary path prefixes\nmatch_port        = [4444]             # destination ports\nmatch_uid         = 0                  # user ID\n```\nReply with only the TOML block(s), no commentary.",
    );
    assert(s@ =~= prompt_text(current_rules@, context@));
    s
}

/// The chat model asked for advice: the configured one, `gpt-4o` when none
/// is configured.
pub fn advice_model(cfg: &AiAdvisorConfig) -> (r: String)
    ensures
        r@ == if cfg.model@.len() == 0 {
            "gpt-4o"@
        } else {
            cfg.model@
        },
{
    if cfg.model.as_str().is_empty() {
        "gpt-4o".to_string()
    } else {
        cfg.model.clone()
    }
}

// ── The reply ───────────────────────────────────────────────────────────

/// A line that opens a TOML fence.
pub open spec fn opens_fence(line: Seq<char>) -> bool {
    has_prefix(line, "```toml"@) || has_prefix(trim_start(line), "```toml"@)
}

/// Reading the reply line by line: whether a fence is open, and the lines
/// collected inside fences so far, each followed by a line feed.
pub open spec fn fence_scan(ls: Seq<Seq<char>>) -> (bool, Seq<char>)
    decreases ls.len(),
{
    if ls.len() == 0 {
        (false, seq![])
    } else {
        let (open, acc) = fence_scan(ls.drop_last());
        let line = ls.last();
        if !open {
            (opens_fence(line), acc)
        } else if trim(line) == "```"@ {
            (false, acc)
        } else {
            (true, acc + line.push('\n'))
        }
    }
}

/// The TOML in a reply: the contents of its ```toml fences; when there are
/// none but the reply mentions `[[rules]]`, the whole reply.
pub open spec fn extracted_toml(text: Seq<char>) -> Seq<char> {
    let acc = fence_scan(lines(text)).1;
    if acc.len() == 0 && has_infix(text, "[[rules]]"@) {
        text
    } else {
        acc
    }
}

fn opens_fence_exec(line: &[char]) -> (r: bool)
    ensures
        r == opens_fence(line@),
{
    let fence = chars_of("```toml");
    if starts_with(line, fence.as_slice()) {
        return true;
    }
    let (lo, hi) = trim_bounds(line, true, ' ');
    let rest = &line[lo..line.len()];
    assert(rest@ =~= trim_start(line@));
    starts_with(rest, fence.as_slice())
}

/// The TOML in a reply (see `extracted_toml`).
pub fn extract_toml(text: &str) -> (r: String)
    ensures
        r@ == extracted_toml(text@),
{
    let v = chars_of(text);
    let ls = lines_of(v.as_slice());
    let ghost all = lines(v@);
    let close = chars_of("```");
    let mut result = String::new();
    let mut in_block = false;
    let mut k: usize = 0;
    assert(all.take(0) =~= Seq::<Seq<char>>::empty());
    while k < ls.len()
        invariant
            k <= ls@.len(),
            ls@.len() == all.len(),
            all == lines(v@),
            forall|j: int| 0 <= j < ls@.len() ==> #[trigger] ls@[j]@ == all[j],
            close@ == "```"@,
            (in_block, result@) == fence_scan(all.take(k as int)),
        decreases ls.len() - k,
    {
        let line = &ls[k];
        proof {
            assert(all.take(k + 1).drop_last() =~= all.take(k as int));
            assert(all.take(k + 1).last() == line@);
        }
        if !in_block {
            if opens_fence_exec(line.as_slice()) {
                in_block = true;
            }
        } else {
            let t = trim_chars(line.as_slice());
            if crate::text::chars_eq(t.as_slice(), close.as_slice()) {
                in_block = false;
            } else {
                push_chars(&mut result, line.as_slice());
                push_char(&mut result, '\n');
            }
        }
        k += 1;
    }
    assert(all.take(ls@.len() as int) =~= all);
    let marker = chars_of("[[rules]]");
    if result.as_str().is_empty() && contains(v.as_slice(), marker.as_slice()) {
        return text.to_string();
    }
    result
}

/// Whether a text parses as a TOML document, as the toml crate decides.
pub uninterp spec fn toml_parses(text: Seq<char>) -> bool;

/// `toml::from_str::<toml::Value>(text).is_ok()`: the contract names the
/// crate's verdict without restating the TOML grammar.
#[verifier::external_body]
fn is_valid_toml(text: &str) -> (r: bool)
    ensures
        r == toml_parses(text@),
{
    toml::from_str::<toml::Value>(text).is_ok()
}

/// The rules block kept from a reply: its TOML when there is some and it
/// parses; `None` otherwise.
pub open spec fn advice_block(reply: Seq<char>) -> Option<Seq<char>> {
    let block = extracted_toml(reply);
    if block.len() > 0 && toml_parses(block) {
        Some(block)
    } else {
        None
    }
}

pub fn advice_rules(reply: &str) -> (r: Option<String>)
    ensures
        match r {
            Some(b) => advice_block(reply@) == Some(b@),
            None => advice_block(reply@) is None,
        },
{
    let block = extract_toml(reply);
    if block.as_str().is_empty() {
        return None;
    }
    if !is_valid_toml(block.as_str()) {
        return None;
    }
    Some(block)
}

pub open spec fn advice_header() -> Seq<char> {
    "# Auto-generated by VectorGuard AI Advisor — do not edit manually\n\n"@
}

/// What the advisor writes into its rules file: a header, then the block.
pub fn advice_file_text(block: &str) -> (r: String)
    ensures
        r@ == advice_header() + block@,
{
    let mut s = String::new();
    push_str(&mut s, "# Auto-generated by VectorGuard AI Advisor — do not edit manually\n\n");
    push_str(&mut s, block);
    s
}

} // verus!
