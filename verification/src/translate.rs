//! The built-in translation: which words to send, when the online service
//! may be asked (one request at a time, and a pause after a failure), and
//! how its answer becomes custom annotations.
use vstd::prelude::*;
use crate::custom::{index_of, join, find_char, sub_vec};
use crate::lookup::{lookup_generated_ipa, or_empty, spec_lookup_generated_ipa};
use crate::normalize::{normalize_key, spec_normalize_key};
use crate::pronounce::push_str;
use crate::state::AppState;
use crate::escape::{from_utf8_lossy, utf8_lossy};
use crate::text::{chars_contains, chars_of, contains_seq, owned, push_char, push_chars, str_eq, string_of, trim, trim_chars};
use crate::tokens::{lines_of, spec_lines};

verus! {

/// How long the online service is left alone after a failed request, in
/// milliseconds.
pub const REMOTE_TRANSLATION_COOLDOWN_MS: u64 = 300_000;

// ---------------------------------------------------------------------------
// When the online service may be asked
// ---------------------------------------------------------------------------

/// Whether a request to the online service is running, and until when it is
/// paused after a failure (milliseconds on a monotonic clock).
pub struct RemoteTranslationState {
    pub cooldown_until_ms: Option<u64>,
    pub in_flight: bool,
}

/// What to do with a new translation: ask the service, wait the given
/// milliseconds, or give up because another request runs.
pub enum RemoteTranslationDecision {
    Attempt,
    CoolingDown(u64),
    Busy,
}

impl RemoteTranslationState {
    /// Nothing running and no pause.
    pub fn new() -> (r: RemoteTranslationState)
        ensures
            r.cooldown_until_ms is None,
            !r.in_flight,
    {
        RemoteTranslationState { cooldown_until_ms: None, in_flight: false }
    }
}

/// The decision for a new translation at `now_ms`, and the state after it:
/// during a pause, wait at least a second; else the pause ends, and a
/// request is made unless one runs.
pub open spec fn spec_begin(s: RemoteTranslationState, now_ms: u64) -> (
    RemoteTranslationState,
    RemoteTranslationDecision,
) {
    match s.cooldown_until_ms {
        Some(deadline) if now_ms < deadline => (
            s,
            RemoteTranslationDecision::CoolingDown(
                if deadline - now_ms < 1000 {
                    1000
                } else {
                    (deadline - now_ms) as u64
                },
            ),
        ),
        _ => if s.in_flight {
            (RemoteTranslationState { cooldown_until_ms: None, in_flight: true }, RemoteTranslationDecision::Busy)
        } else {
            (
                RemoteTranslationState { cooldown_until_ms: None, in_flight: true },
                RemoteTranslationDecision::Attempt,
            )
        },
    }
}

/// The state after a request ends at `now_ms`: nothing runs, and after a
/// failure the service is paused for five minutes.
pub open spec fn spec_finish(succeeded: bool, now_ms: u64) -> RemoteTranslationState {
    RemoteTranslationState {
        cooldown_until_ms: if succeeded {
            None
        } else {
            Some((now_ms + REMOTE_TRANSLATION_COOLDOWN_MS) as u64)
        },
        in_flight: false,
    }
}

/// Decides whether a new translation may ask the online service at
/// `now_ms`, and marks the request as running when it may.
pub fn begin_remote_translation(remote: &mut RemoteTranslationState, now_ms: u64) -> (r:
    RemoteTranslationDecision)
    ensures
        (*final(remote), r) == spec_begin(*old(remote), now_ms),
{
    match remote.cooldown_until_ms {
        Some(deadline) => {
            if now_ms < deadline {
                let left = deadline - now_ms;
                let retry_after_ms = if left < 1000 {
                    1000
                } else {
                    left
                };
                return RemoteTranslationDecision::CoolingDown(retry_after_ms);
            }
        },
        None => {},
    }
    remote.cooldown_until_ms = None;
    if remote.in_flight {
        return RemoteTranslationDecision::Busy;
    }
    remote.in_flight = true;
    RemoteTranslationDecision::Attempt
}

/// Marks the running request as ended at `now_ms`; after a failure the
/// service is paused for five minutes.
pub fn finish_remote_translation(remote: &mut RemoteTranslationState, succeeded: bool, now_ms: u64)
    requires
        now_ms + REMOTE_TRANSLATION_COOLDOWN_MS <= u64::MAX,
    ensures
        *final(remote) == spec_finish(succeeded, now_ms),
{
    remote.in_flight = false;
    remote.cooldown_until_ms = if succeeded {
        None
    } else {
        Some(now_ms + REMOTE_TRANSLATION_COOLDOWN_MS)
    };
}

/// Law: while a request runs, no other request is started.
pub proof fn one_request_at_a_time(s: RemoteTranslationState, now_ms: u64)
    requires
        s.in_flight,
    ensures
        !(spec_begin(s, now_ms).1 is Attempt),
        spec_begin(s, now_ms).0.in_flight,
{
}

/// Law: after a failure, new translations wait for the rest of the five
/// minutes (at least a second), and the state stays as it is.
pub proof fn failure_pauses_requests(failed_at: u64, now_ms: u64)
    requires
        failed_at + REMOTE_TRANSLATION_COOLDOWN_MS <= u64::MAX,
        failed_at <= now_ms < failed_at + REMOTE_TRANSLATION_COOLDOWN_MS,
    ensures
        ({
            let s = spec_finish(false, failed_at);
            let wait = failed_at + REMOTE_TRANSLATION_COOLDOWN_MS - now_ms;
            &&& spec_begin(s, now_ms).0 == s
            &&& spec_begin(s, now_ms).1 == RemoteTranslationDecision::CoolingDown(
                if wait < 1000 {
                    1000u64
                } else {
                    wait as u64
                },
            )
        }),
{
}

/// Law: after a success, or once the pause is over, the next translation
/// asks the service and is marked as running.
pub proof fn requests_resume(succeeded: bool, finished_at: u64, now_ms: u64)
    requires
        finished_at + REMOTE_TRANSLATION_COOLDOWN_MS <= u64::MAX,
        succeeded || now_ms >= finished_at + REMOTE_TRANSLATION_COOLDOWN_MS,
    ensures
        spec_begin(spec_finish(succeeded, finished_at), now_ms).1 is Attempt,
        spec_begin(spec_finish(succeeded, finished_at), now_ms).0 == (RemoteTranslationState {
            cooldown_until_ms: None,
            in_flight: true,
        }),
{
}

// ---------------------------------------------------------------------------
// Outcomes
// ---------------------------------------------------------------------------

/// What the built-in translation gives: custom annotation lines, whether it
/// fell back, a warning and its reason, the language actually used, and
/// when to try again.
pub struct BuiltinTranslationOutcome {
    pub annotations: String,
    pub fallback: bool,
    pub warning: String,
    pub reason: String,
    pub actual_language: String,
    pub retry_after_ms: u64,
}

/// Whether an outcome is consistent for a translation into `target`: a
/// fallback carries no annotations and names no language; any other outcome
/// names the target, with no warning, reason or wait.
pub open spec fn outcome_agrees(o: (Seq<char>, bool, Seq<char>, Seq<char>, Seq<char>, u64), target: Seq<char>) -> bool {
    if o.1 {
        o.0.len() == 0 && o.4.len() == 0
    } else {
        o.4 == target && o.2.len() == 0 && o.3.len() == 0 && o.5 == 0
    }
}

/// An outcome that falls back, with its warning, reason and wait.
pub open spec fn fallback_view(warning: Seq<char>, reason: Seq<char>, wait_ms: u64) -> (
    Seq<char>,
    bool,
    Seq<char>,
    Seq<char>,
    Seq<char>,
    u64,
) {
    (seq![], true, warning, reason, seq![], wait_ms)
}

/// The outcome of a translation settled without the service, if it is: an
/// unsupported language falls back; English is annotated with itself.
pub open spec fn settled_view(
    pron: Map<Seq<char>, Seq<Seq<Seq<char>>>>,
    target: Seq<char>,
    words: Seq<Seq<char>>,
) -> Option<(Seq<char>, bool, Seq<char>, Seq<char>, Seq<char>, u64)> {
    match crate::language::spec_builtin_translation_language(target) {
        None => Some(fallback_view("所选语言暂不受在线翻译支持，未混入中文释义。"@, "unsupported"@, 0)),
        Some(_) => if target == "en"@ {
            Some((join(english_annotations(pron, words), seq!['\n']), false, seq![], seq![], target, 0))
        } else {
            None
        },
    }
}

/// The outcome of a decision not to ask the service, if it is one.
pub open spec fn declined_view(d: RemoteTranslationDecision) -> Option<
    (Seq<char>, bool, Seq<char>, Seq<char>, Seq<char>, u64),
> {
    match d {
        RemoteTranslationDecision::Attempt => None,
        RemoteTranslationDecision::CoolingDown(ms) => Some(
            fallback_view("在线翻译服务正在冷却，未混入中文释义。"@, "cooldown"@, ms),
        ),
        RemoteTranslationDecision::Busy => Some(fallback_view("在线翻译服务正忙，未混入中文释义。"@, "busy"@, 1500)),
    }
}

/// The outcome when the files for the translation cannot be written.
pub open spec fn setup_failed_view() -> (Seq<char>, bool, Seq<char>, Seq<char>, Seq<char>, u64) {
    fallback_view("在线翻译服务暂时不可用，未混入中文释义。"@, "unavailable"@, REMOTE_TRANSLATION_COOLDOWN_MS)
}

/// Law: an attempt marks the request as running, and finishing it, however
/// it went, leaves nothing running.
pub proof fn attempts_end_idle(s: RemoteTranslationState, now_ms: u64, succeeded: bool, finished_at: u64)
    ensures
        spec_begin(s, now_ms).1 is Attempt ==> spec_begin(s, now_ms).0.in_flight,
        !spec_finish(succeeded, finished_at).in_flight,
{
}

/// An outcome without annotations, with its warning and reason.
pub fn unavailable_translation_outcome(warning: &str, reason: &str, retry_after_ms: u64) -> (r:
    BuiltinTranslationOutcome)
    ensures
        r.annotations@ == Seq::<char>::empty(),
        r.fallback,
        r.warning@ == warning@,
        r.reason@ == reason@,
        r.actual_language@ == Seq::<char>::empty(),
        r.retry_after_ms == retry_after_ms,
{
    BuiltinTranslationOutcome {
        annotations: String::new(),
        fallback: true,
        warning: owned(warning),
        reason: owned(reason),
        actual_language: String::new(),
        retry_after_ms,
    }
}

/// The outcome for a decision not to ask the service: a pause, or another
/// request running.
pub fn declined_outcome(decision: &RemoteTranslationDecision) -> (r: Option<BuiltinTranslationOutcome>)
    ensures
        match *decision {
            RemoteTranslationDecision::Attempt => r is None,
            RemoteTranslationDecision::CoolingDown(ms) => r matches Some(o) && o.fallback
                && o.annotations@.len() == 0 && o.actual_language@.len() == 0 && o.warning@
                == "在线翻译服务正在冷却，未混入中文释义。"@ && o.reason@ == "cooldown"@ && o.retry_after_ms == ms,
            RemoteTranslationDecision::Busy => r matches Some(o) && o.fallback && o.annotations@.len()
                == 0 && o.actual_language@.len() == 0 && o.warning@ == "在线翻译服务正忙，未混入中文释义。"@
                && o.reason@ == "busy"@ && o.retry_after_ms == 1500,
        },
        r matches Some(o) ==> o.fallback && outcome_agrees(outcome_view(o), seq![]),
        match r {
            Some(o) => declined_view(*decision) == Some(outcome_view(o)),
            None => declined_view(*decision) is None,
        },
{
    match decision {
        RemoteTranslationDecision::Attempt => None,
        RemoteTranslationDecision::CoolingDown(ms) => Some(
            unavailable_translation_outcome("在线翻译服务正在冷却，未混入中文释义。", "cooldown", *ms),
        ),
        RemoteTranslationDecision::Busy => Some(
            unavailable_translation_outcome("在线翻译服务正忙，未混入中文释义。", "busy", 1500),
        ),
    }
}

/// The outcome when the files for the translation cannot be written.
pub fn setup_failed_outcome() -> (r: BuiltinTranslationOutcome)
    ensures
        r.fallback,
        r.annotations@.len() == 0,
        r.actual_language@.len() == 0,
        outcome_agrees(outcome_view(r), seq![]),
        r.warning@ == "在线翻译服务暂时不可用，未混入中文释义。"@,
        r.reason@ == "unavailable"@,
        r.retry_after_ms == REMOTE_TRANSLATION_COOLDOWN_MS,
        outcome_view(r) == setup_failed_view(),
{
    unavailable_translation_outcome(
        "在线翻译服务暂时不可用，未混入中文释义。",
        "unavailable",
        REMOTE_TRANSLATION_COOLDOWN_MS,
    )
}

// ---------------------------------------------------------------------------
// Annotations from the service's answer
// ---------------------------------------------------------------------------

/// A translation as an annotation part: line ends, `=` and `|` as spaces,
/// trimmed.
pub open spec fn clean_translation(t: Seq<char>) -> Seq<char> {
    trim(
        t.map_values(
            |c: char|
                if c == '\r' || c == '\n' || c == '=' || c == '|' {
                    ' '
                } else {
                    c
                },
        ),
    )
}

/// The annotation made from a line `word<TAB>translation` of the answer:
/// the word's key, its generated pronunciation and the translation, joined
/// by `=`; none for a line without a tab, key or translation.
pub open spec fn answer_annotation(pron: Map<Seq<char>, Seq<Seq<Seq<char>>>>, line: Seq<char>) -> Option<
    Seq<char>,
> {
    match index_of(line, '\t') {
        None => None,
        Some(i) => {
            let word = spec_normalize_key(line.take(i));
            let tr = clean_translation(line.skip(i + 1));
            if word.len() == 0 || tr.len() == 0 {
                None
            } else {
                Some(word + seq!['='] + or_empty(spec_lookup_generated_ipa(pron, word)) + seq!['='] + tr)
            }
        },
    }
}

/// The annotations made from the lines of the answer, in order.
pub open spec fn answer_annotations(pron: Map<Seq<char>, Seq<Seq<Seq<char>>>>, lines: Seq<Seq<char>>) -> Seq<
    Seq<char>,
>
    decreases lines.len(),
{
    if lines.len() == 0 {
        seq![]
    } else {
        let rest = answer_annotations(pron, lines.drop_last());
        match answer_annotation(pron, lines.last()) {
            Some(a) => rest.push(a),
            None => rest,
        }
    }
}

/// The number of lines of `s` that are not blank.
pub open spec fn count_filled(lines: Seq<Seq<char>>) -> nat
    decreases lines.len(),
{
    if lines.len() == 0 {
        0
    } else {
        count_filled(lines.drop_last()) + if trim(lines.last()).len() > 0 {
            1nat
        } else {
            0nat
        }
    }
}

/// The number of lines of a text that are not blank.
pub fn count_filled_lines(text: &str) -> (n: usize)
    ensures
        n == count_filled(spec_lines(text@)),
{
    let v = chars_of(text);
    let lines = lines_of(&v);
    let ghost lv = lines.deep_view();
    let mut n: usize = 0;
    let mut i: usize = 0;
    while i < lines.len()
        invariant
            i <= lines.len(),
            lv == lines.deep_view(),
            n == count_filled(lv.take(i as int)),
            n <= i,
        decreases lines.len() - i,
    {
        assert(lv.take(i + 1).drop_last() =~= lv.take(i as int));
        assert(lv[i as int] == lines@[i as int]@);
        let l = chars_of(lines[i].as_str());
        if trim_chars(&l).len() > 0 {
            n += 1;
        }
        i += 1;
    }
    assert(lv.take(lines.len() as int) =~= lv);
    n
}

/// What the service's answer (or its error) gives, and whether the request
/// counts as a success: the annotations when there are any; else, and for
/// each error, no annotations with the reason.
pub open spec fn spec_answer_outcome(
    pron: Map<Seq<char>, Seq<Seq<Seq<char>>>>,
    target_language: Seq<char>,
    answer: Result<Seq<char>, Seq<char>>,
) -> (Seq<char>, bool, Seq<char>, Seq<char>, Seq<char>, u64, bool) {
    match answer {
        Ok(text) => {
            let annotations = join(answer_annotations(pron, spec_lines(text)), seq!['\n']);
            if count_filled(spec_lines(annotations)) == 0 {
                (
                    seq![],
                    true,
                    "在线翻译未返回可用的目标语释义，未混入中文释义。"@,
                    "incomplete"@,
                    seq![],
                    REMOTE_TRANSLATION_COOLDOWN_MS,
                    false,
                )
            } else {
                (annotations, false, seq![], seq![], target_language, 0, true)
            }
        },
        Err(error) => {
            let (warning, reason) = if error == "TRANSLATION_RATE_LIMITED"@ {
                ("在线翻译服务请求过多，未混入中文释义。"@, "rate_limited"@)
            } else if error == "TRANSLATION_INCOMPLETE"@ || error == "TRANSLATION_EMPTY"@ {
                ("在线翻译未返回可用的目标语释义，未混入中文释义。"@, "incomplete"@)
            } else {
                ("在线翻译服务暂时不可用，未混入中文释义。"@, "unavailable"@)
            };
            (seq![], true, warning, reason, seq![], REMOTE_TRANSLATION_COOLDOWN_MS, false)
        },
    }
}

/// Law: whatever the service answers, the outcome agrees with the target
/// language, and the request counts as a success exactly when it does not
/// fall back.
pub proof fn service_answers_agree(
    pron: Map<Seq<char>, Seq<Seq<Seq<char>>>>,
    target_language: Seq<char>,
    answer: Result<Seq<char>, Seq<char>>,
)
    ensures
        ({
            let o = spec_answer_outcome(pron, target_language, answer);
            &&& outcome_agrees((o.0, o.1, o.2, o.3, o.4, o.5), target_language)
            &&& o.6 == !o.1
        }),
{
}

/// An outcome as values: annotations, fallback, warning, reason, language,
/// retry time.
pub open spec fn outcome_view(o: BuiltinTranslationOutcome) -> (Seq<char>, bool, Seq<char>, Seq<char>, Seq<
    char,
>, u64) {
    (o.annotations@, o.fallback, o.warning@, o.reason@, o.actual_language@, o.retry_after_ms)
}

fn clean_translation_chars(v: &Vec<char>) -> (r: Vec<char>)
    ensures
        r@ == clean_translation(v@),
{
    let mut m: Vec<char> = Vec::new();
    let mut i: usize = 0;
    while i < v.len()
        invariant
            i <= v.len(),
            m@ == v@.take(i as int).map_values(
                |c: char|
                    if c == '\r' || c == '\n' || c == '=' || c == '|' {
                        ' '
                    } else {
                        c
                    },
            ),
        decreases v.len() - i,
    {
        let c = v[i];
        m.push(
            if c == '\r' || c == '\n' || c == '=' || c == '|' {
                ' '
            } else {
                c
            },
        );
        assert(v@.take(i + 1) =~= v@.take(i as int).push(c));
        assert(m@ =~= v@.take(i + 1).map_values(
            |c: char|
                if c == '\r' || c == '\n' || c == '=' || c == '|' {
                    ' '
                } else {
                    c
                },
        ));
        i += 1;
    }
    assert(v@.take(v.len() as int) =~= v@);
    trim_chars(&m)
}

fn annotation_of_line(state: &AppState, line: &Vec<char>) -> (r: Option<String>)
    requires
        state.wf(),
    ensures
        r matches Some(a) ==> answer_annotation(state.pronunciations_v(), line@) == Some(a@),
        r is None ==> answer_annotation(state.pronunciations_v(), line@) is None,
{
    let t = match find_char(line, '\t') {
        Some(t) => t,
        None => return None,
    };
    let word_part = sub_vec(line, 0, t);
    assert(word_part@ =~= line@.take(t as int));
    let rest = sub_vec(line, t + 1, line.len());
    assert(rest@ =~= line@.skip(t + 1));
    let word = normalize_key(string_of(&word_part).as_str());
    let tr = clean_translation_chars(&rest);
    if word.as_str().unicode_len() == 0 || tr.len() == 0 {
        return None;
    }
    let ipa = match lookup_generated_ipa(state, word.as_str()) {
        Some(i) => i,
        None => String::new(),
    };
    let mut out = String::new();
    push_str(&mut out, word.as_str());
    push_char(&mut out, '=');
    push_str(&mut out, ipa.as_str());
    push_char(&mut out, '=');
    push_chars(&mut out, &tr);
    assert(out@ =~= word@ + seq!['='] + ipa@ + seq!['='] + tr@);
    Some(out)
}

/// What the service's answer, or its error, gives, and whether the request
/// succeeded.
pub fn answer_outcome(state: &AppState, target_language: &str, answer: Result<String, String>) -> (r: (
    BuiltinTranslationOutcome,
    bool,
))
    requires
        state.wf(),
    ensures
        ({
            let a = match answer {
                Ok(t) => Ok::<Seq<char>, Seq<char>>(t@),
                Err(e) => Err::<Seq<char>, Seq<char>>(e@),
            };
            let o = spec_answer_outcome(state.pronunciations_v(), target_language@, a);
            &&& outcome_view(r.0) == (o.0, o.1, o.2, o.3, o.4, o.5)
            &&& r.1 == o.6
        }),
        outcome_agrees(outcome_view(r.0), target_language@),
        r.1 == !r.0.fallback,
{
    match answer {
        Ok(text) => {
            let v = chars_of(text.as_str());
            let lines = lines_of(&v);
            let ghost lv = lines.deep_view();
            let mut found: Vec<String> = Vec::new();
            let mut i: usize = 0;
            assert(found.deep_view() =~= answer_annotations(state.pronunciations_v(), lv.take(0)));
            while i < lines.len()
                invariant
                    i <= lines.len(),
                    state.wf(),
                    lv == lines.deep_view(),
                    found.deep_view() == answer_annotations(state.pronunciations_v(), lv.take(i as int)),
                decreases lines.len() - i,
            {
                assert(lv.take(i + 1).drop_last() =~= lv.take(i as int));
                assert(lv[i as int] == lines@[i as int]@);
                let line = chars_of(lines[i].as_str());
                match annotation_of_line(state, &line) {
                    Some(a) => {
                        let ghost before = found.deep_view();
                        found.push(a);
                        assert(found.deep_view() =~= before.push(a@));
                    },
                    None => {},
                }
                i += 1;
            }
            assert(lv.take(lines.len() as int) =~= lv);
            let annotations = crate::custom::join_strings(&found, '\n');
            let count = count_filled_lines(annotations.as_str());
            if count == 0 {
                (
                    unavailable_translation_outcome(
                        "在线翻译未返回可用的目标语释义，未混入中文释义。",
                        "incomplete",
                        REMOTE_TRANSLATION_COOLDOWN_MS,
                    ),
                    false,
                )
            } else {
                (
                    BuiltinTranslationOutcome {
                        annotations,
                        fallback: false,
                        warning: String::new(),
                        reason: String::new(),
                        actual_language: owned(target_language),
                        retry_after_ms: 0,
                    },
                    true,
                )
            }
        },
        Err(error) => {
            let e = error.as_str();
            let outcome = if str_eq(e, "TRANSLATION_RATE_LIMITED") {
                unavailable_translation_outcome(
                    "在线翻译服务请求过多，未混入中文释义。",
                    "rate_limited",
                    REMOTE_TRANSLATION_COOLDOWN_MS,
                )
            } else if str_eq(e, "TRANSLATION_INCOMPLETE") || str_eq(e, "TRANSLATION_EMPTY") {
                unavailable_translation_outcome(
                    "在线翻译未返回可用的目标语释义，未混入中文释义。",
                    "incomplete",
                    REMOTE_TRANSLATION_COOLDOWN_MS,
                )
            } else {
                unavailable_translation_outcome(
                    "在线翻译服务暂时不可用，未混入中文释义。",
                    "unavailable",
                    REMOTE_TRANSLATION_COOLDOWN_MS,
                )
            };
            (outcome, false)
        },
    }
}

/// What to do for a translation: it is already settled (an unsupported
/// language, or English, which is annotated with itself), or the online
/// service is to be asked in the given provider language.
pub enum TranslationPlan {
    Settled(BuiltinTranslationOutcome),
    AskService(String),
}

/// The annotations for English: each word annotated with its generated
/// pronunciation and itself.
pub open spec fn english_annotations(pron: Map<Seq<char>, Seq<Seq<Seq<char>>>>, words: Seq<Seq<char>>) -> Seq<
    Seq<char>,
> {
    words.map_values(
        |w: Seq<char>| w + seq!['='] + or_empty(spec_lookup_generated_ipa(pron, w)) + seq!['='] + w,
    )
}

/// Settles a translation that needs no service, or names the provider
/// language to ask the service in.
pub fn plan_builtin_translation(state: &AppState, target_language: &str, words: &Vec<String>) -> (r:
    TranslationPlan)
    requires
        state.wf(),
    ensures
        crate::language::spec_builtin_translation_language(target_language@) is None ==> (r matches TranslationPlan::Settled(
            o,
        ) && outcome_view(o) == (
            Seq::<char>::empty(),
            true,
            "所选语言暂不受在线翻译支持，未混入中文释义。"@,
            "unsupported"@,
            Seq::<char>::empty(),
            0u64,
        )),
        crate::language::spec_builtin_translation_language(target_language@) is Some && target_language@
            == "en"@ ==> (r matches TranslationPlan::Settled(o) && outcome_view(o) == (
            join(english_annotations(state.pronunciations_v(), words.deep_view()), seq!['\n']),
            false,
            Seq::<char>::empty(),
            Seq::<char>::empty(),
            target_language@,
            0u64,
        )),
        crate::language::spec_builtin_translation_language(target_language@) is Some && target_language@
            != "en"@ ==> (r matches TranslationPlan::AskService(l) && Some(l@)
            == crate::language::spec_builtin_translation_language(target_language@)),
        match r {
            TranslationPlan::Settled(o) => settled_view(state.pronunciations_v(), target_language@, words.deep_view())
                == Some(outcome_view(o)),
            TranslationPlan::AskService(_) => settled_view(
                state.pronunciations_v(),
                target_language@,
                words.deep_view(),
            ) is None,
        },
{
    let provider = match crate::language::builtin_translation_language(target_language) {
        Some(p) => p,
        None => {
            return TranslationPlan::Settled(
                unavailable_translation_outcome("所选语言暂不受在线翻译支持，未混入中文释义。", "unsupported", 0),
            );
        },
    };
    if !str_eq(target_language, "en") {
        return TranslationPlan::AskService(provider);
    }
    let ghost wv = words.deep_view();
    let mut lines: Vec<String> = Vec::new();
    let mut i: usize = 0;
    while i < words.len()
        invariant
            i <= words.len(),
            state.wf(),
            wv == words.deep_view(),
            lines.deep_view() == english_annotations(state.pronunciations_v(), wv.take(i as int)),
        decreases words.len() - i,
    {
        let w = words[i].as_str();
        assert(wv[i as int] == w@);
        let ipa = match lookup_generated_ipa(state, w) {
            Some(x) => x,
            None => String::new(),
        };
        assert(ipa@ == or_empty(spec_lookup_generated_ipa(state.pronunciations_v(), w@)));
        let mut line = String::new();
        push_str(&mut line, w);
        push_char(&mut line, '=');
        push_str(&mut line, ipa.as_str());
        push_char(&mut line, '=');
        push_str(&mut line, w);
        assert(line@ =~= w@ + seq!['='] + ipa@ + seq!['='] + w@);
        let ghost before = lines.deep_view();
        let ghost line_v = line@;
        lines.push(line);
        assert(lines.deep_view() =~= before.push(line_v));
        assert(wv.take(i + 1) =~= wv.take(i as int).push(w@));
        assert(english_annotations(state.pronunciations_v(), wv.take(i + 1)) =~= english_annotations(
            state.pronunciations_v(),
            wv.take(i as int),
        ).push(line_v));
        i += 1;
    }
    assert(wv.take(words.len() as int) =~= wv);
    TranslationPlan::Settled(
        BuiltinTranslationOutcome {
            annotations: crate::custom::join_strings(&lines, '\n'),
            fallback: false,
            warning: String::new(),
            reason: String::new(),
            actual_language: owned(target_language),
            retry_after_ms: 0,
        },
    )
}

// ---------------------------------------------------------------------------
// The whole request
// ---------------------------------------------------------------------------

/// A whole translation request, step by step, for every way the outside
/// work can go: the plan settles it, or the service is asked at
/// `asked_at_ms`; a pause or a running request declines it; else the files
/// are written or not, the service answers `answer`, and the request ends
/// at `finished_at_ms`. The outcome, and the state of the service after it.
pub open spec fn spec_translation_request(
    pron: Map<Seq<char>, Seq<Seq<Seq<char>>>>,
    target: Seq<char>,
    words: Seq<Seq<char>>,
    remote: RemoteTranslationState,
    asked_at_ms: u64,
    files_written: bool,
    answer: Result<Seq<char>, Seq<char>>,
    finished_at_ms: u64,
) -> ((Seq<char>, bool, Seq<char>, Seq<char>, Seq<char>, u64), RemoteTranslationState) {
    match settled_view(pron, target, words) {
        Some(o) => (o, remote),
        None => {
            let (s1, d) = spec_begin(remote, asked_at_ms);
            match declined_view(d) {
                Some(o) => (o, s1),
                None => if !files_written {
                    (setup_failed_view(), spec_finish(false, finished_at_ms))
                } else {
                    let a = spec_answer_outcome(pron, target, answer);
                    ((a.0, a.1, a.2, a.3, a.4, a.5), spec_finish(a.6, finished_at_ms))
                },
            }
        },
    }
}

/// Law of the whole translation request, whatever the service answers: a
/// fallback carries no annotations and names no language; any other
/// outcome names the target language, with no warning, reason or wait;
/// English is annotated with each word's generated pronunciation and the
/// word itself; a request that asked the service leaves nothing running,
/// and no request leaves one running that was not running before; a
/// request that falls back after asking pauses the service for five minutes.
pub proof fn translation_request_laws(
    pron: Map<Seq<char>, Seq<Seq<Seq<char>>>>,
    target: Seq<char>,
    words: Seq<Seq<char>>,
    remote: RemoteTranslationState,
    asked_at_ms: u64,
    files_written: bool,
    answer: Result<Seq<char>, Seq<char>>,
    finished_at_ms: u64,
)
    ensures
        ({
            let (o, after) = spec_translation_request(
                pron,
                target,
                words,
                remote,
                asked_at_ms,
                files_written,
                answer,
                finished_at_ms,
            );
            let asked = settled_view(pron, target, words) is None && spec_begin(remote, asked_at_ms).1 is Attempt;
            &&& outcome_agrees(o, target)
            &&& target == "en"@ ==> o == (
                join(english_annotations(pron, words), seq!['\n']),
                false,
                Seq::<char>::empty(),
                Seq::<char>::empty(),
                target,
                0u64,
            )
            &&& asked ==> !after.in_flight
            &&& after.in_flight ==> remote.in_flight
            &&& asked && o.1 ==> after.cooldown_until_ms == Some((finished_at_ms + REMOTE_TRANSLATION_COOLDOWN_MS) as u64)
            &&& asked && !o.1 ==> after.cooldown_until_ms is None
        }),
{
    if target == "en"@ {
        assert(crate::language::spec_target_language_name(target) is Some);
        assert(crate::language::spec_builtin_translation_language(target) is Some);
    }
    service_answers_agree(pron, target, answer);
}

// ---------------------------------------------------------------------------
// The words to translate
// ---------------------------------------------------------------------------

/// What stays fixed while the words to translate are chosen.
pub struct CandidateEnv {
    pub pron: Map<Seq<char>, Seq<Seq<Seq<char>>>>,
    pub trs: Map<Seq<char>, Seq<char>>,
    pub basic: Set<Seq<char>>,
    pub hard: Set<Seq<char>>,
    pub profile: crate::state::ProfileView,
    pub known: Set<Seq<char>>,
    pub manual: Set<Seq<char>>,
}

/// What changes while they are chosen: the lexicon, the words so far, and
/// whether the limit of 48 is reached.
pub struct CandidateState {
    pub lex: Map<Seq<char>, crate::lexicon::EntryView>,
    pub order: Seq<Seq<char>>,
    pub words: Seq<Seq<char>>,
    pub done: bool,
}

/// One token: a word whose key has three bytes or more and is new is looked
/// up (which may add an entry); unless the custom list annotates it, it is
/// chosen where it should be annotated.
pub open spec fn candidate_step(env: CandidateEnv, st: CandidateState, token: Seq<char>) -> CandidateState {
    let key = spec_normalize_key(token);
    if st.done || !crate::tokens::spec_is_word_token(token) || crate::normalize::byte_len(key) < 3
        || st.words.contains(key) {
        st
    } else {
        let entry = crate::lookup::spec_lookup_entry(env.pron, env.trs, st.lex, token, true, true);
        let st1 = if crate::lookup::lookup_adds(st.lex, token, entry) {
            CandidateState {
                lex: crate::lexicon::spec_add_entry(st.lex, entry.unwrap()),
                order: crate::lexicon::add_keys(st.order, crate::normalize::spec_key_variants(token)),
                ..st
            }
        } else {
            st
        };
        if crate::lookup::is_hard_word(token, env.manual) {
            st1
        } else if crate::lookup::spec_should_annotate_word(
            env.basic,
            token,
            entry,
            env.hard,
            env.profile,
            env.known,
        ) {
            CandidateState { words: st1.words.push(key), done: st1.words.len() + 1 >= 48, ..st1 }
        } else {
            st1
        }
    }
}

/// The tokens in turn.
pub open spec fn candidate_steps(env: CandidateEnv, st: CandidateState, tokens: Seq<Seq<char>>) -> CandidateState
    decreases tokens.len(),
{
    if tokens.len() == 0 {
        st
    } else {
        candidate_step(env, candidate_steps(env, st, tokens.drop_last()), tokens.last())
    }
}

/// The spellings of the terms of the custom entries.
pub open spec fn manual_terms(custom: Seq<char>) -> Set<Seq<char>> {
    crate::lookup::variant_keys(
        crate::custom::spec_parse_custom_annotations(custom).0.map_values(|e: crate::lexicon::EntryView| e.term),
    )
}

fn manual_term_set(entries: &Vec<crate::lexicon::LexiconEntry>) -> (r: vstd::hash_set::StringHashSet)
    ensures
        r@ == crate::lookup::variant_keys(
            entries@.map_values(|e: crate::lexicon::LexiconEntry| crate::lexicon::entry_view(e)).map_values(
                |e: crate::lexicon::EntryView| e.term,
            ),
        ),
{
    let ghost tv = entries@.map_values(|e: crate::lexicon::LexiconEntry| crate::lexicon::entry_view(e)).map_values(
        |e: crate::lexicon::EntryView| e.term,
    );
    let mut terms: Vec<String> = Vec::new();
    let mut i: usize = 0;
    while i < entries.len()
        invariant
            i <= entries.len(),
            tv == entries@.map_values(|e: crate::lexicon::LexiconEntry| crate::lexicon::entry_view(e)).map_values(
                |e: crate::lexicon::EntryView| e.term,
            ),
            terms.deep_view() == tv.take(i as int),
        decreases entries.len() - i,
    {
        let ghost before = terms.deep_view();
        terms.push(entries[i].term.clone());
        assert(terms.deep_view() =~= before.push(entries@[i as int].term@));
        assert(tv.take(i + 1) =~= tv.take(i as int).push(tv[i as int]));
        i += 1;
    }
    assert(tv.take(entries.len() as int) =~= tv);
    crate::annotate::variant_set(&terms)
}

/// The words of an article to translate: up to 48 keys, each once, of
/// three bytes or more, that the grade would annotate and the custom list
/// does not; an error where the grade has no word list.
pub fn builtin_translation_candidates(state: &AppState, article: &str, custom_words: &str, grade: &str) -> (r:
    Result<Vec<String>, String>)
    requires
        state.wf(),
        state.has_profile(grade@) || state.has_profile("P4"@),
    ensures
        ({
            let profile = state.chosen_profile(grade@);
            if !state.known_v().contains_key(profile.code) {
                r matches Err(e) && e@ == "年级配置不可用。"@
            } else {
                let lex = crate::annotate::context_lexicon(state.seed_lexicon.view_map(), custom_words@, "zh-Hans"@);
                let env = CandidateEnv {
                    pron: state.pronunciations_v(),
                    trs: state.translations_v(),
                    basic: state.basic_words@,
                    hard: crate::annotate::context_hard_terms(lex, custom_words@),
                    profile,
                    known: state.known_v()[profile.code].union(crate::annotate::context_ignored(custom_words@)),
                    manual: manual_terms(custom_words@),
                };
                let st0 = CandidateState {
                    lex,
                    order: crate::annotate::add_entries_order(
                        state.seed_lexicon.key_order(),
                        crate::custom::spec_parse_custom_annotations(custom_words@).0,
                    ),
                    words: seq![],
                    done: false,
                };
                r matches Ok(words) && words.deep_view() == candidate_steps(
                    env,
                    st0,
                    crate::tokens::spec_tokenize(article@),
                ).words
            }
        }),
{
    proof {
        state.lemma_chosen_profile(grade@);
    }
    let (custom_entries, _, _) = crate::custom::parse_custom_annotations(custom_words);
    let manual = manual_term_set(&custom_entries);
    let (mut lexicon, hard_terms, profile, known_words) = match crate::annotate::annotation_context(
        state,
        custom_words,
        grade,
        "zh-Hans",
    ) {
        Ok(c) => c,
        Err(e) => return Err(e),
    };
    let ghost env = CandidateEnv {
        pron: state.pronunciations_v(),
        trs: state.translations_v(),
        basic: state.basic_words@,
        hard: hard_terms@,
        profile: crate::state::profile_view(*profile),
        known: known_words.view_set(),
        manual: manual@,
    };
    let ghost st0 = CandidateState {
        lex: lexicon.view_map(),
        order: lexicon.key_order(),
        words: seq![],
        done: false,
    };
    let tokens = crate::tokens::tokenize(article);
    let ghost tv = tokens.deep_view();
    let mut words: Vec<String> = Vec::new();
    let mut done = false;
    let mut i: usize = 0;
    assert(tv.take(0) =~= Seq::<Seq<char>>::empty());
    assert(words.deep_view() =~= Seq::<Seq<char>>::empty());
    while i < tokens.len()
        invariant
            i <= tokens.len(),
            state.wf(),
            lexicon.wf(),
            tv == tokens.deep_view(),
            env == (CandidateEnv {
                pron: state.pronunciations_v(),
                trs: state.translations_v(),
                basic: state.basic_words@,
                hard: hard_terms@,
                profile: crate::state::profile_view(*profile),
                known: known_words.view_set(),
                manual: manual@,
            }),
            candidate_steps(env, st0, tv.take(i as int)) == (CandidateState {
                lex: lexicon.view_map(),
                order: lexicon.key_order(),
                words: words.deep_view(),
                done,
            }),
        decreases tokens.len() - i,
    {
        assert(tv.take(i + 1).drop_last() =~= tv.take(i as int));
        assert(tv[i as int] == tokens@[i as int]@);
        let token = tokens[i].as_str();
        let key = normalize_key(token);
        let kv = chars_of(key.as_str());
        if done || !crate::tokens::is_word_token(token) || crate::normalize::utf8_len_capped(&kv, 3) < 3
            || crate::normalize::contains_string(&words, &kv) {
            i += 1;
            continue;
        }
        let entry = crate::lookup::lookup_entry(state, token, &mut lexicon, true, true);
        if crate::lookup::any_hard_candidate(token, &manual) {
            i += 1;
            continue;
        }
        let annotate = match &entry {
            Some(e) => crate::lookup::should_annotate_word(state, token, Some(e), &hard_terms, profile, &known_words),
            None => crate::lookup::should_annotate_word(state, token, None, &hard_terms, profile, &known_words),
        };
        if annotate {
            let ghost before = words.deep_view();
            words.push(key);
            assert(words.deep_view() =~= before.push(kv@));
            done = words.len() >= 48;
        }
        i += 1;
    }
    assert(tv.take(tokens.len() as int) =~= tv);
    Ok(words)
}


// ---------------------------------------------------------------------------
// The translator's exit
// ---------------------------------------------------------------------------

/// What the translator's run gives: on failure, a rate limit reported on
/// either stream, an incomplete answer reported on standard error, or
/// else an unavailable service; on success, its output, unless that is
/// blank. Both streams are read as UTF-8 with U+FFFD for invalid bytes.
pub open spec fn spec_translator_result(success: bool, stdout: Seq<u8>, stderr: Seq<u8>) -> Result<
    Seq<char>,
    Seq<char>,
> {
    let out = utf8_lossy(stdout);
    let err = utf8_lossy(stderr);
    if !success {
        if contains_seq(err, "RATE_LIMITED"@) || contains_seq(out, "RATE_LIMITED"@) {
            Err("TRANSLATION_RATE_LIMITED"@)
        } else if contains_seq(err, "TRANSLATION_INCOMPLETE"@) {
            Err("TRANSLATION_INCOMPLETE"@)
        } else {
            Err("TRANSLATION_UNAVAILABLE"@)
        }
    } else if trim(out).len() == 0 {
        Err("TRANSLATION_EMPTY"@)
    } else {
        Ok(out)
    }
}

/// Reads the exit of the translator: whether it succeeded and what it wrote
/// to standard output and standard error.
pub fn translator_result(success: bool, stdout: &Vec<u8>, stderr: &Vec<u8>) -> (r: Result<String, String>)
    ensures
        match spec_translator_result(success, stdout@, stderr@) {
            Ok(t) => r matches Ok(x) && x@ == t,
            Err(e) => r matches Err(x) && x@ == e,
        },
{
    let out = from_utf8_lossy(stdout);
    let err = from_utf8_lossy(stderr);
    let ov = chars_of(out.as_str());
    let ev = chars_of(err.as_str());
    if !success {
        if chars_contains(&ev, "RATE_LIMITED") || chars_contains(&ov, "RATE_LIMITED") {
            return Err(owned("TRANSLATION_RATE_LIMITED"));
        }
        if chars_contains(&ev, "TRANSLATION_INCOMPLETE") {
            return Err(owned("TRANSLATION_INCOMPLETE"));
        }
        return Err(owned("TRANSLATION_UNAVAILABLE"));
    }
    if trim_chars(&ov).len() == 0 {
        return Err(owned("TRANSLATION_EMPTY"));
    }
    Ok(out)
}

} // verus!
