//! Admission of strategy experiment requests: their shape, their scope and their budget.
use vstd::prelude::*;
use crate::common::ExperienceBudget;
use crate::evaluation::check_ok;
use crate::error::Error;
use crate::experimentation::{
    AgentRequestsConfig, CandidateExecution, ExperienceBudgetConfig, ExperimentCandidate, ExperimentIntent,
    ExperimentOrigin, ExperimentRequest,
};
use crate::text::{contains_any, contains_any_spec, is_blank, is_blank_spec, str_eq, trim_str, trimmed, utf8_len, views};

verus! {

// ------------------------------------------------------------------------------------------
// Outside calls.
// ------------------------------------------------------------------------------------------

/// What `char::is_alphanumeric` returns for `c`: whether it is alphabetic or numeric in
/// Unicode.
pub uninterp spec fn unicode_alphanumeric(c: char) -> bool;

pub open spec fn ascii_alphanumeric(c: char) -> bool {
    ('a' <= c && c <= 'z') || ('A' <= c && c <= 'Z') || ('0' <= c && c <= '9')
}

/// `char::is_alphanumeric`: Unicode alphabetic or numeric; among ASCII characters, exactly
/// the letters and digits.
#[verifier::external_body]
fn is_alphanumeric(c: char) -> (r: bool)
    ensures
        r == unicode_alphanumeric(c),
        (c as u32) < 128 ==> (r <==> ascii_alphanumeric(c)),
{
    c.is_alphanumeric()
}

/// Whether `regex::Regex::new` accepts the pattern.
pub uninterp spec fn regex_valid(pattern: Seq<char>) -> bool;

/// What `regex::Regex::is_match` says of `text` for the regex compiled from `pattern`.
pub uninterp spec fn regex_search(pattern: Seq<char>, text: Seq<char>) -> bool;

/// Compiles `pattern` with `regex::Regex::new` and asks `Regex::is_match` of every text;
/// when the pattern does not compile, the error's text. That text is not described here.
#[verifier::external_body]
fn regex_matches(pattern: &str, texts: &Vec<String>) -> (r: Result<Vec<bool>, String>)
    ensures
        r is Ok <==> regex_valid(pattern@),
        r matches Ok(v) ==> v@.len() == texts@.len()
            && forall|i: int| 0 <= i < v@.len() ==> #[trigger] v@[i] == regex_search(pattern@, texts@[i]@),
{
    match regex::Regex::new(pattern) {
        Ok(re) => Ok(texts.iter().map(|t| re.is_match(t)).collect()),
        Err(e) => Err(e.to_string()),
    }
}

// ------------------------------------------------------------------------------------------
// Shape.
// ------------------------------------------------------------------------------------------

pub open spec fn shape_message() -> Seq<char> {
    "Experiment needs a question, session, and 1–32 bounded candidates (128 KiB maximum)"@
}

pub open spec fn checks_message() -> Seq<char> {
    "Checks must be nonempty shell scripts without NUL bytes"@
}

pub open spec fn check_limit_message() -> Seq<char> {
    "At most 16 evaluator checks; custom comparison checks are not supported"@
}

pub open spec fn candidate_name_message() -> Seq<char> {
    "Candidate IDs/names must be unique; names use letters, numbers, hyphens or underscores"@
}

pub open spec fn shell_count_message() -> Seq<char> {
    "Shell candidate needs 1–64 explicit command entries"@
}

pub open spec fn candidate_text_message() -> Seq<char> {
    "Candidate commands/prompts must be nonempty, NUL-free, and bounded"@
}

pub open spec fn name_char_ok(c: char) -> bool {
    unicode_alphanumeric(c) || c == '-' || c == '_'
}

/// A candidate name: 1 to 64 bytes of letters, digits, hyphens and underscores.
pub open spec fn candidate_name_ok(n: Seq<char>) -> bool {
    &&& n.len() > 0
    &&& utf8_len(n) <= 64
    &&& forall|i: int| 0 <= i < n.len() ==> name_char_ok(#[trigger] n[i])
}

/// The commands of a shell candidate, or the prompt of an agent task.
pub open spec fn execution_texts(e: CandidateExecution) -> Seq<Seq<char>> {
    match e {
        CandidateExecution::Shell { commands } => views(commands@),
        CandidateExecution::AgentTask { prompt, .. } => seq![prompt@],
    }
}

/// A command or prompt: not blank, no NUL, at most 32 KiB.
pub open spec fn text_ok(t: Seq<char>) -> bool {
    !is_blank_spec(t) && !contains_any_spec(t, seq!['\0']) && utf8_len(t) <= 32 * 1024
}

/// Two candidates share an identity or a name.
pub open spec fn clash(a: ExperimentCandidate, b: ExperimentCandidate) -> bool {
    a.id@ == b.id@ || a.name@ == b.name@
}

/// Why candidate `k` is refused, given that those before it were accepted.
pub open spec fn candidate_error(cs: Seq<ExperimentCandidate>, k: int) -> Option<Seq<char>> {
    let c = cs[k];
    if !candidate_name_ok(c.name@) || exists|j: int| 0 <= j < k && #[trigger] clash(cs[j], c) {
        Some(candidate_name_message())
    } else if (c.execution matches CandidateExecution::Shell { commands } && (commands@.len() == 0
        || commands@.len() > 64)) {
        Some(shell_count_message())
    } else if exists|i: int| 0 <= i < execution_texts(c.execution).len() && !text_ok(
        #[trigger] execution_texts(c.execution)[i],
    ) {
        Some(candidate_text_message())
    } else {
        None
    }
}

/// Why the first refused of the first `n` candidates is refused.
pub open spec fn candidates_error(cs: Seq<ExperimentCandidate>, n: int) -> Option<Seq<char>>
    decreases n,
{
    if n <= 0 {
        None
    } else {
        match candidates_error(cs, n - 1) {
            Some(m) => Some(m),
            None => candidate_error(cs, n - 1),
        }
    }
}

/// Why a request is refused for its shape, given the length of its JSON encoding; `None`
/// when it is accepted.
pub open spec fn shape_error(r: ExperimentRequest, encoded_len: nat) -> Option<Seq<char>> {
    if is_blank_spec(r.question@) || utf8_len(r.question@) > 4096 || r.session_id@.len() == 0
        || utf8_len(r.session_id@) > 256 || r.candidates@.len() == 0 || r.candidates@.len() > 32
        || encoded_len > 128 * 1024 {
        Some(shape_message())
    } else if !(forall|i: int| 0 <= i < r.evaluator.checks@.len() ==> check_ok(#[trigger] r.evaluator.checks@[i]@)) {
        Some(checks_message())
    } else if r.evaluator.checks@.len() > 16 || r.criteria.custom_checks@.len() > 0 {
        Some(check_limit_message())
    } else {
        candidates_error(r.candidates@, r.candidates@.len() as int)
    }
}

proof fn lemma_candidates_error_sticks(cs: Seq<ExperimentCandidate>, i: int, n: int)
    requires
        0 <= i <= n,
        candidates_error(cs, i) is Some,
    ensures
        candidates_error(cs, n) == candidates_error(cs, i),
    decreases n - i,
{
    if n > i {
        lemma_candidates_error_sticks(cs, i, n - 1);
    }
}

fn name_chars_ok(name: &str) -> (r: bool)
    ensures
        r == (forall|i: int| 0 <= i < name@.len() ==> name_char_ok(#[trigger] name@[i])),
{
    let n = name.unicode_len();
    let mut i: usize = 0;
    while i < n
        invariant
            n == name@.len(),
            i <= n,
            forall|k: int| 0 <= k < i ==> name_char_ok(#[trigger] name@[k]),
        decreases n - i,
    {
        let c = name.get_char(i);
        if !(is_alphanumeric(c) || c == '-' || c == '_') {
            return false;
        }
        i = i + 1;
    }
    true
}

fn texts_ok(texts: &Vec<String>) -> (r: bool)
    ensures
        r == (forall|i: int| 0 <= i < texts@.len() ==> text_ok(#[trigger] views(texts@)[i])),
{
    let nul = ['\0'];
    assert(nul@ =~= seq!['\0']);
    let mut i: usize = 0;
    while i < texts.len()
        invariant
            i <= texts@.len(),
            nul@ == seq!['\0'],
            forall|k: int| 0 <= k < i ==> text_ok(#[trigger] views(texts@)[k]),
        decreases texts.len() - i,
    {
        let t = texts[i].as_str();
        if is_blank(t) || contains_any(t, &nul) || t.as_bytes().len() > 32 * 1024 {
            assert(!text_ok(views(texts@)[i as int]));
            return false;
        }
        i = i + 1;
    }
    true
}

fn invalid(message: &str) -> (e: Error)
    ensures
        e is InvalidInput,
        e.message_spec() == message@,
{
    Error::InvalidInput(String::from_str(message))
}

fn check_candidate(cs: &Vec<ExperimentCandidate>, k: usize) -> (r: Result<(), Error>)
    requires
        k < cs@.len(),
    ensures
        r is Ok <==> candidate_error(cs@, k as int) is None,
        r matches Err(e) ==> e is InvalidInput && candidate_error(cs@, k as int) == Some(e.message_spec()),
{
    let c = &cs[k];
    let mut unique = true;
    let mut j: usize = 0;
    while j < k
        invariant
            k < cs@.len(),
            j <= k,
            c == cs@[k as int],
            unique <==> forall|q: int| 0 <= q < j ==> !#[trigger] clash(cs@[q], *c),
        decreases k - j,
    {
        if str_eq(cs[j].id.as_str(), c.id.as_str()) || str_eq(cs[j].name.as_str(), c.name.as_str()) {
            unique = false;
            assert(clash(cs@[j as int], *c));
        }
        j = j + 1;
    }
    let name = c.name.as_str();
    if name.is_empty() || name.as_bytes().len() > 64 || !name_chars_ok(name) || !unique {
        return Err(invalid("Candidate IDs/names must be unique; names use letters, numbers, hyphens or underscores"));
    }
    match &c.execution {
        CandidateExecution::Shell { commands } => {
            if commands.len() == 0 || commands.len() > 64 {
                return Err(invalid("Shell candidate needs 1–64 explicit command entries"));
            }
            if !texts_ok(commands) {
                return Err(invalid("Candidate commands/prompts must be nonempty, NUL-free, and bounded"));
            }
        },
        CandidateExecution::AgentTask { prompt, .. } => {
            let nul = ['\0'];
            assert(nul@ =~= seq!['\0']);
            let t = prompt.as_str();
            if is_blank(t) || contains_any(t, &nul) || t.as_bytes().len() > 32 * 1024 {
                assert(!text_ok(execution_texts(c.execution)[0]));
                return Err(invalid("Candidate commands/prompts must be nonempty, NUL-free, and bounded"));
            }
            assert forall|i: int| 0 <= i < execution_texts(c.execution).len() implies text_ok(
                #[trigger] execution_texts(c.execution)[i],
            ) by {
                assert(i == 0);
            }
        },
    }
    Ok(())
}

/// Checks a request's shape: a question of at most 4096 bytes, a session of at most 256, 1
/// to 32 candidates, an encoding of at most 128 KiB (`encoded_len`, the length of its JSON
/// encoding), valid evaluator checks (at most 16, with no custom comparison checks), and
/// uniquely identified, well-named candidates whose commands or prompts are acceptable.
pub fn validate_shape(request: &ExperimentRequest, encoded_len: usize) -> (r: Result<(), Error>)
    ensures
        r is Ok <==> shape_error(*request, encoded_len as nat) is None,
        r matches Err(e) ==> e is InvalidInput && shape_error(*request, encoded_len as nat) == Some(e.message_spec()),
{
    let question = request.question.as_str();
    let session = request.session_id.as_str();
    if is_blank(question) || question.as_bytes().len() > 4096 || session.is_empty() || session.as_bytes().len() > 256
        || request.candidates.len() == 0 || request.candidates.len() > 32 || encoded_len > 128 * 1024 {
        return Err(invalid("Experiment needs a question, session, and 1–32 bounded candidates (128 KiB maximum)"));
    }
    match request.evaluator.validate() {
        Ok(()) => {},
        Err(_) => {
            return Err(invalid("Checks must be nonempty shell scripts without NUL bytes"));
        },
    }
    if request.evaluator.checks.len() > 16 || request.criteria.custom_checks.len() > 0 {
        return Err(invalid("At most 16 evaluator checks; custom comparison checks are not supported"));
    }
    assert(shape_error(*request, encoded_len as nat) == candidates_error(
        request.candidates@,
        request.candidates@.len() as int,
    ));
    let mut k: usize = 0;
    while k < request.candidates.len()
        invariant
            k <= request.candidates@.len(),
            candidates_error(request.candidates@, k as int) is None,
            shape_error(*request, encoded_len as nat) == candidates_error(
                request.candidates@,
                request.candidates@.len() as int,
            ),
        decreases request.candidates.len() - k,
    {
        match check_candidate(&request.candidates, k) {
            Ok(()) => {},
            Err(e) => {
                proof {
                    assert(candidates_error(request.candidates@, k as int + 1) == candidate_error(request.candidates@, k as int));
                    lemma_candidates_error_sticks(request.candidates@, k as int + 1, request.candidates@.len() as int);
                }
                return Err(e);
            },
        }
        k = k + 1;
    }
    Ok(())
}

// ------------------------------------------------------------------------------------------
// Scope.
// ------------------------------------------------------------------------------------------

/// Shell commands that declare an external mutation: pushes, mail, cloud tools, charges.
pub const FORBIDDEN_PATTERN: &'static str =
    r"(?i)(\bgit\s+push\b|\b(sendmail|aws|gcloud|az|terraform)\b|\bsend[ -]email\b|\bcharge[ -](card|api)\b)";

pub open spec fn side_effect_message() -> Seq<char> {
    "Experiment requires unsupported external side effects or filesystem scope; only repository-local work is supported"@
}

pub open spec fn agent_message() -> Seq<char> {
    "Agent experiment requests or requested network capability are disabled"@
}

pub open spec fn intent_message() -> Seq<char> {
    "This experiment intent requires the existing lesson/chaos/recovery engine; strategy execution does not substitute for it"@
}

pub open spec fn external_message() -> Seq<char> {
    "Experiment requires unsupported external side effects; external mutations cannot be isolated"@
}

pub open spec fn policy_message() -> Seq<char> {
    "Experiment requires a command blocked by local policy or explicit approval; unattended execution cannot grant approval"@
}

/// The commands and prompts of the candidates, in order, then the evaluator's checks.
pub open spec fn scope_texts(r: ExperimentRequest) -> Seq<Seq<char>> {
    candidate_texts(r.candidates@, r.candidates@.len() as int) + views(r.evaluator.checks@)
}

pub open spec fn candidate_texts(cs: Seq<ExperimentCandidate>, n: int) -> Seq<Seq<char>>
    decreases n,
{
    if n <= 0 {
        Seq::empty()
    } else {
        candidate_texts(cs, n - 1) + execution_texts(cs[n - 1].execution)
    }
}

/// A text matches a policy command once both are trimmed.
pub open spec fn policy_lists(policy: Seq<Seq<char>>, t: Seq<char>) -> bool {
    exists|i: int| 0 <= i < policy.len() && trimmed(#[trigger] policy[i]) == trimmed(t)
}

/// Why the first refused of the texts is refused, given whether each matched the forbidden
/// pattern; `None` when none is.
pub open spec fn screen_error(texts: Seq<Seq<char>>, matched: Seq<bool>, policy: Seq<Seq<char>>, n: int) -> Option<Seq<char>>
    decreases n,
{
    if n <= 0 {
        None
    } else {
        match screen_error(texts, matched, policy, n - 1) {
            Some(m) => Some(m),
            None => if matched[n - 1] {
                Some(external_message())
            } else if policy_lists(policy, texts[n - 1]) {
                Some(policy_message())
            } else {
                None
            },
        }
    }
}

proof fn lemma_screen_error_sticks(texts: Seq<Seq<char>>, matched: Seq<bool>, policy: Seq<Seq<char>>, i: int, n: int)
    requires
        0 <= i <= n,
        screen_error(texts, matched, policy, i) is Some,
    ensures
        screen_error(texts, matched, policy, n) == screen_error(texts, matched, policy, i),
    decreases n - i,
{
    if n > i {
        lemma_screen_error_sticks(texts, matched, policy, i, n - 1);
    }
}

/// Refuses the first text that matched the forbidden pattern or that a policy command names.
pub fn screen_texts(texts: &Vec<String>, matched: &Vec<bool>, policy: &Vec<String>) -> (r: Result<(), Error>)
    requires
        matched@.len() == texts@.len(),
    ensures
        r is Ok <==> screen_error(views(texts@), matched@, views(policy@), texts@.len() as int) is None,
        r matches Err(e) ==> e is InvalidInput
            && screen_error(views(texts@), matched@, views(policy@), texts@.len() as int) == Some(e.message_spec()),
{
    let mut i: usize = 0;
    while i < texts.len()
        invariant
            i <= texts@.len(),
            matched@.len() == texts@.len(),
            screen_error(views(texts@), matched@, views(policy@), i as int) is None,
        decreases texts.len() - i,
    {
        if matched[i] {
            proof {
                lemma_screen_error_sticks(views(texts@), matched@, views(policy@), i as int + 1, texts@.len() as int);
            }
            return Err(invalid("Experiment requires unsupported external side effects; external mutations cannot be isolated"));
        }
        let t = trim_str(texts[i].as_str());
        let mut j: usize = 0;
        while j < policy.len()
            invariant
                j <= policy@.len(),
                i < texts@.len(),
                matched@.len() == texts@.len(),
                !matched@[i as int],
                screen_error(views(texts@), matched@, views(policy@), i as int) is None,
                t@ == trimmed(texts@[i as int]@),
                forall|q: int| 0 <= q < j ==> trimmed(#[trigger] views(policy@)[q]) != t@,
            decreases policy.len() - j,
        {
            if str_eq(trim_str(policy[j].as_str()), t) {
                proof {
                    assert(trimmed(views(policy@)[j as int]) == trimmed(views(texts@)[i as int]));
                    assert(policy_lists(views(policy@), views(texts@)[i as int]));
                    assert(screen_error(views(texts@), matched@, views(policy@), i as int + 1) == Some(policy_message()));
                    lemma_screen_error_sticks(views(texts@), matched@, views(policy@), i as int + 1, texts@.len() as int);
                }
                return Err(invalid(
                    "Experiment requires a command blocked by local policy or explicit approval; unattended execution cannot grant approval",
                ));
            }
            j = j + 1;
        }
        proof {
            assert(views(texts@)[i as int] == texts@[i as int]@);
            assert(!policy_lists(views(policy@), views(texts@)[i as int]));
        }
        i = i + 1;
    }
    Ok(())
}

/// The intents a strategy experiment may serve.
pub open spec fn strategy_intent(i: ExperimentIntent) -> bool {
    i == ExperimentIntent::ResolveUncertainty || i == ExperimentIntent::CompareStrategies
        || i == ExperimentIntent::ValidateHypothesis || i == ExperimentIntent::ReproduceFederatedExperience
}

/// Why a request is refused before its texts are screened; `None` when it passes.
pub open spec fn scope_precheck(r: ExperimentRequest, agent: AgentRequestsConfig) -> Option<Seq<char>> {
    let c = r.capabilities;
    if c.filesystem_scope@.len() > 0 || c.allow_external_mutations || c.external_effects@.len() > 0 {
        Some(side_effect_message())
    } else if r.origin == ExperimentOrigin::Agent && (!agent.enabled || (c.allow_network && !agent.allow_network)) {
        Some(agent_message())
    } else if !strategy_intent(r.intent) {
        Some(intent_message())
    } else {
        None
    }
}

fn collect_texts(request: &ExperimentRequest) -> (r: Vec<String>)
    ensures
        views(r@) == scope_texts(*request),
{
    let mut r: Vec<String> = Vec::new();
    let mut k: usize = 0;
    while k < request.candidates.len()
        invariant
            k <= request.candidates@.len(),
            views(r@) == candidate_texts(request.candidates@, k as int),
        decreases request.candidates.len() - k,
    {
        let ghost start = views(r@);
        match &request.candidates[k].execution {
            CandidateExecution::Shell { commands } => {
                let mut j: usize = 0;
                while j < commands.len()
                    invariant
                        j <= commands@.len(),
                        views(r@) == start + views(commands@.subrange(0, j as int)),
                    decreases commands.len() - j,
                {
                    let ghost r0 = r@;
                    r.push(commands[j].clone());
                    proof {
                        assert(views(r@) =~= views(r0).push(commands@[j as int]@));
                        assert(views(commands@.subrange(0, j as int + 1)) =~= views(commands@.subrange(0, j as int)).push(
                            commands@[j as int]@,
                        ));
                    }
                    j = j + 1;
                }
                assert(commands@.subrange(0, commands@.len() as int) =~= commands@);
            },
            CandidateExecution::AgentTask { prompt, .. } => {
                let ghost r0 = r@;
                r.push(prompt.clone());
                assert(views(r@) =~= views(r0).push(prompt@));
            },
        }
        assert(views(r@) =~= candidate_texts(request.candidates@, k as int + 1));
        k = k + 1;
    }
    let ghost start = views(r@);
    let checks = &request.evaluator.checks;
    let mut j: usize = 0;
    while j < checks.len()
        invariant
            j <= checks@.len(),
            views(r@) == start + views(checks@.subrange(0, j as int)),
        decreases checks.len() - j,
    {
        let ghost r0 = r@;
        r.push(checks[j].clone());
        proof {
            assert(views(r@) =~= views(r0).push(checks@[j as int]@));
            assert(views(checks@.subrange(0, j as int + 1)) =~= views(checks@.subrange(0, j as int)).push(checks@[j as int]@));
        }
        j = j + 1;
    }
    assert(checks@.subrange(0, checks@.len() as int) =~= checks@);
    r
}

fn concat_strings(a: &Vec<String>, b: &Vec<String>) -> (r: Vec<String>)
    ensures
        views(r@) == views(a@) + views(b@),
{
    let mut r = crate::text::clone_strings(a);
    let mut j: usize = 0;
    while j < b.len()
        invariant
            j <= b@.len(),
            views(r@) == views(a@) + views(b@.subrange(0, j as int)),
        decreases b.len() - j,
    {
        let ghost r0 = r@;
        r.push(b[j].clone());
        proof {
            assert(views(r@) =~= views(r0).push(b@[j as int]@));
            assert(views(b@.subrange(0, j as int + 1)) =~= views(b@.subrange(0, j as int)).push(b@[j as int]@));
        }
        j = j + 1;
    }
    assert(b@.subrange(0, b@.len() as int) =~= b@);
    r
}

/// Checks that a request stays within what a strategy experiment can do: no filesystem scope
/// or external effects, agent requests only where enabled (and network only where allowed),
/// a strategy intent, and no command, prompt or check that matches the forbidden pattern or
/// that the blocked or approval-only commands name.
pub fn validate_scope(
    request: &ExperimentRequest,
    agent_requests: &AgentRequestsConfig,
    blocked_commands: &Vec<String>,
    approval_commands: &Vec<String>,
) -> (r: Result<(), Error>)
    ensures
        scope_precheck(*request, *agent_requests) matches Some(m) ==> (r matches Err(e) && e is InvalidInput
            && e.message_spec() == m),
        scope_precheck(*request, *agent_requests) is None && !regex_valid(FORBIDDEN_PATTERN@) ==> (r matches Err(
            e,
        ) && e is InvalidInput),
        scope_precheck(*request, *agent_requests) is None && regex_valid(FORBIDDEN_PATTERN@) ==> {
            let texts = scope_texts(*request);
            let matched = texts.map_values(|t: Seq<char>| regex_search(FORBIDDEN_PATTERN@, t));
            let e = screen_error(texts, matched, views(blocked_commands@) + views(approval_commands@), texts.len() as int);
            &&& r is Ok <==> e is None
            &&& r matches Err(err) ==> err is InvalidInput && e == Some(err.message_spec())
        },
{
    let c = &request.capabilities;
    if c.filesystem_scope.len() > 0 || c.allow_external_mutations || c.external_effects.len() > 0 {
        return Err(invalid(
            "Experiment requires unsupported external side effects or filesystem scope; only repository-local work is supported",
        ));
    }
    if request.origin == ExperimentOrigin::Agent && (!agent_requests.enabled || (c.allow_network
        && !agent_requests.allow_network)) {
        return Err(invalid("Agent experiment requests or requested network capability are disabled"));
    }
    let intent_ok = match request.intent {
        ExperimentIntent::ResolveUncertainty | ExperimentIntent::CompareStrategies | ExperimentIntent::ValidateHypothesis
        | ExperimentIntent::ReproduceFederatedExperience => true,
        _ => false,
    };
    if !intent_ok {
        return Err(invalid(
            "This experiment intent requires the existing lesson/chaos/recovery engine; strategy execution does not substitute for it",
        ));
    }
    let texts = collect_texts(request);
    let matched = match regex_matches(FORBIDDEN_PATTERN, &texts) {
        Ok(m) => m,
        Err(message) => {
            return Err(Error::InvalidInput(message));
        },
    };
    let policy = concat_strings(blocked_commands, approval_commands);
    proof {
        let tv = scope_texts(*request);
        assert(matched@ =~= tv.map_values(|t: Seq<char>| regex_search(FORBIDDEN_PATTERN@, t))) by {
            assert forall|i: int| 0 <= i < matched@.len() implies matched@[i] == regex_search(FORBIDDEN_PATTERN@, tv[i]) by {
                assert(tv[i] == views(texts@)[i]);
            }
        }
    }
    screen_texts(&texts, &matched, &policy)
}

// ------------------------------------------------------------------------------------------
// Budget.
// ------------------------------------------------------------------------------------------

pub open spec fn min_usize(a: usize, b: usize) -> usize {
    if a <= b { a } else { b }
}

pub open spec fn min_u64(a: u64, b: u64) -> u64 {
    if a <= b { a } else { b }
}

/// The budget an experiment runs with: the request's, limited by the configured budget (and,
/// for requests from agents, by the agent-request limit); the duration is always bounded,
/// by five minutes where nothing is configured.
pub open spec fn effective_budget_spec(
    request: ExperimentRequest,
    configured: ExperienceBudget,
    agent: AgentRequestsConfig,
) -> ExperienceBudget {
    let b = request.budget;
    let realities = min_usize(b.max_realities, configured.max_realities);
    ExperienceBudget {
        max_realities: if request.origin == ExperimentOrigin::Agent {
            min_usize(realities, agent.max_realities)
        } else {
            realities
        },
        max_agent_runs: min_usize(b.max_agent_runs, configured.max_agent_runs),
        max_duration_ms: Some(min_u64(
            match b.max_duration_ms {
                Some(d) => d,
                None => u64::MAX,
            },
            match configured.max_duration_ms {
                Some(d) => d,
                None => 300_000u64,
            },
        )),
        max_commands_per_reality: match (b.max_commands_per_reality, configured.max_commands_per_reality) {
            (Some(x), Some(y)) => Some(min_usize(x, y)),
            (Some(x), None) => Some(x),
            (None, y) => y,
        },
        ..b
    }
}

/// The budget an experiment runs with, as described by `effective_budget_spec`.
pub fn effective_budget(
    request: &ExperimentRequest,
    experience_budget: &ExperienceBudgetConfig,
    agent_requests: &AgentRequestsConfig,
) -> (r: ExperienceBudget)
    ensures
        r == effective_budget_spec(*request, experience_budget.budget_spec(), *agent_requests),
{
    let configured = experience_budget.budget();
    let mut b = request.budget;
    if configured.max_realities < b.max_realities {
        b.max_realities = configured.max_realities;
    }
    if request.origin == ExperimentOrigin::Agent && agent_requests.max_realities < b.max_realities {
        b.max_realities = agent_requests.max_realities;
    }
    if configured.max_agent_runs < b.max_agent_runs {
        b.max_agent_runs = configured.max_agent_runs;
    }
    let requested = match b.max_duration_ms {
        Some(d) => d,
        None => u64::MAX,
    };
    let limit = match configured.max_duration_ms {
        Some(d) => d,
        None => 300_000,
    };
    b.max_duration_ms = Some(if requested <= limit { requested } else { limit });
    b.max_commands_per_reality = match (b.max_commands_per_reality, configured.max_commands_per_reality) {
        (Some(x), Some(y)) => Some(if x <= y { x } else { y }),
        (Some(x), None) => Some(x),
        (None, y) => y,
    };
    b
}

} // verus!
