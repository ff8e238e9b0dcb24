//! The content classifier: how much a fetched HTML page looks like a
//! business contact form.
use vstd::prelude::*;

verus! {

/// An `<input>` whose type is `email`.
pub const EMAIL_INPUT_PATTERN: &'static str = r#"(?is)<input[^>]*\btype\s*=\s*["']?email["']?[^>]*>"#;

/// A `<textarea>` element with its closing tag.
pub const TEXTAREA_PATTERN: &'static str = r#"(?is)<textarea[^>]*>.*?</textarea>"#;

/// A submit control whose visible text or value is a send / submit phrase.
pub const SUBMIT_BUTTON_PATTERN: &'static str = r#"(?is)<(button|input)[^>]*?(type\s*=\s*["']?submit["']?)?[^>]*>(?:[^<]{0,40})?(送信|お問い合わせ|送信する|Submit|Send|送る)[^<]*</button>|<input[^>]*\bvalue\s*=\s*["']?(送信|お問い合わせ|Submit|Send)["']?[^>]*>"#;

/// Vocabulary of the fields of a contact form.
pub const FIELD_LABELS_PATTERN: &'static str = r#"(?is)(メールアドレス|email|e-mail|お名前|氏名|会社名|法人名|組織名|お問い合わせ内容|ご用件|メッセージ|本文|電話番号|お電話)"#;

/// Vocabulary of contact, inquiry and quote-request pages.
pub const CONTACT_CONTEXT_PATTERN: &'static str = r#"(?is)(お問い合わせ|お問合せ|問い合わせ|ご相談|ご依頼|資料請求|お見積り|商談|連絡先|法人様向け|企業様向け|協業|提携|取引のご相談)"#;

/// An `<input>` whose type is `password`: a login form.
pub const PASSWORD_INPUT_PATTERN: &'static str = r#"(?is)<input[^>]*\btype\s*=\s*["']?password["']?[^>]*>"#;

/// An `<input>` whose type is `search`.
pub const SEARCH_INPUT_PATTERN: &'static str = r#"(?is)<input[^>]*\btype\s*=\s*["']?search["']?[^>]*>"#;

/// Vocabulary of recruiting, login, search, FAQ and purchase pages.
pub const NEGATIVE_CONTEXT_PATTERN: &'static str = r#"(?is)(採用|エントリー|応募|新卒|中途|求人|ログイン|サインイン|会員登録|検索|search|FAQ|よくある質問|通報|コンプライアンス|苦情|修理|保証|購入|カート|予約)"#;

/// Script, style and comment blocks, and every remaining tag.
pub const MARKUP_PATTERN: &'static str = r"(?is)<script.*?</script>|<style.*?</style>|<!--.*?-->|<[^>]+>";

pub const LABEL_EMAIL_INPUT: &'static str = "input[type=email]";
pub const LABEL_TEXTAREA: &'static str = "textarea";
pub const LABEL_SUBMIT_BUTTON: &'static str = "submit_button(送信/お問い合わせ/Send/Submit)";
pub const LABEL_FIELD_LABELS: &'static str = "field_labels(氏名/会社名/お問い合わせ内容/電話など)";
pub const LABEL_CONTACT_CONTEXT: &'static str = "page_context(お問い合わせ/ご相談/資料請求/商談など)";
pub const LABEL_PASSWORD_INPUT: &'static str = "password_input(ログイン系)";
pub const LABEL_SEARCH_INPUT: &'static str = "search_input";
pub const LABEL_NEGATIVE_CONTEXT: &'static str = "page_context_negative(採用/ログイン/検索/FAQ/予約/購入など)";

/// What `regex::Regex::new(pattern)` followed by `is_match(text)` answers;
/// `None` where the pattern does not compile.
pub uninterp spec fn regex_find(pattern: Seq<char>, text: Seq<char>) -> Option<bool>;

/// What `regex::Regex::new(pattern)` followed by `replace_all(text, rep)`
/// returns; `None` where the pattern does not compile.
pub uninterp spec fn regex_replaced(pattern: Seq<char>, text: Seq<char>, rep: Seq<char>) -> Option<
    Seq<char>,
>;

/// Relies on `regex::Regex::new` and `Regex::is_match`.
#[verifier::external_body]
fn regex_is_match(pattern: &str, text: &str) -> (r: Option<bool>)
    ensures
        r == regex_find(pattern@, text@),
{
    match regex::Regex::new(pattern) {
        Ok(re) => Some(re.is_match(text)),
        Err(_) => None,
    }
}

/// Relies on `regex::Regex::new` and `Regex::replace_all`.
#[verifier::external_body]
fn regex_replace_all(pattern: &str, text: &str, rep: &str) -> (r: Option<String>)
    ensures
        r matches Some(t) ==> regex_replaced(pattern@, text@, rep@) == Some(t@),
        r is None ==> regex_replaced(pattern@, text@, rep@) is None,
{
    match regex::Regex::new(pattern) {
        Ok(re) => Some(re.replace_all(text, rep).into_owned()),
        Err(_) => None,
    }
}

/// The signals the classifier checks, each present or not.
#[derive(Clone, Copy, Debug, PartialEq, Eq, Structural)]
pub struct Signals {
    pub email_input: bool,
    pub textarea: bool,
    pub submit_button: bool,
    pub field_labels: bool,
    pub contact_context: bool,
    pub password_input: bool,
    pub search_input: bool,
    pub negative_context: bool,
}

/// The classifier's verdict on one page.
#[derive(Debug, Clone)]
pub struct ScoreResult {
    pub score: i32,
    pub positives: Vec<String>,
    pub negatives: Vec<String>,
}

pub ghost struct ScoreView {
    pub score: int,
    pub positives: Seq<Seq<char>>,
    pub negatives: Seq<Seq<char>>,
}

impl View for ScoreResult {
    type V = ScoreView;

    open spec fn view(&self) -> ScoreView {
        ScoreView {
            score: self.score as int,
            positives: self.positives@.map_values(|s: String| s@),
            negatives: self.negatives@.map_values(|s: String| s@),
        }
    }
}

/// Whether a pattern compiles and matches the text.
pub open spec fn fires(pattern: Seq<char>, text: Seq<char>) -> bool {
    regex_find(pattern, text) == Some(true)
}

/// The page text: the markup with scripts, styles, comments and tags
/// replaced by spaces.
pub open spec fn page_text_of(html: Seq<char>) -> Seq<char> {
    match regex_replaced(MARKUP_PATTERN@, html, " "@) {
        Some(t) => t,
        None => html,
    }
}

/// The signals found in a page.
pub open spec fn signals_of(html: Seq<char>) -> Signals {
    let text = page_text_of(html);
    Signals {
        email_input: fires(EMAIL_INPUT_PATTERN@, html),
        textarea: fires(TEXTAREA_PATTERN@, html),
        submit_button: fires(SUBMIT_BUTTON_PATTERN@, html),
        field_labels: fires(FIELD_LABELS_PATTERN@, text),
        contact_context: fires(CONTACT_CONTEXT_PATTERN@, text),
        password_input: fires(PASSWORD_INPUT_PATTERN@, html),
        search_input: fires(SEARCH_INPUT_PATTERN@, html),
        negative_context: fires(NEGATIVE_CONTEXT_PATTERN@, text),
    }
}

pub open spec fn weight(present: bool, w: int) -> int {
    if present {
        w
    } else {
        0
    }
}

/// The sum of the weights of the signals present, before clamping.
pub open spec fn raw_score(s: Signals) -> int {
    weight(s.email_input, 28) + weight(s.textarea, 28) + weight(s.submit_button, 12) + weight(
        s.field_labels,
        12,
    ) + weight(s.contact_context, 20) - weight(s.password_input, 38) - weight(s.search_input, 18)
        - weight(s.negative_context, 18)
}

pub open spec fn clamp_score(x: int) -> int {
    if x < 0 {
        0
    } else if x > 100 {
        100
    } else {
        x
    }
}

pub open spec fn label_if(present: bool, label: Seq<char>) -> Seq<Seq<char>> {
    if present {
        seq![label]
    } else {
        Seq::empty()
    }
}

pub open spec fn positive_labels(s: Signals) -> Seq<Seq<char>> {
    label_if(s.email_input, LABEL_EMAIL_INPUT@) + label_if(s.textarea, LABEL_TEXTAREA@) + label_if(
        s.submit_button,
        LABEL_SUBMIT_BUTTON@,
    ) + label_if(s.field_labels, LABEL_FIELD_LABELS@) + label_if(
        s.contact_context,
        LABEL_CONTACT_CONTEXT@,
    )
}

pub open spec fn negative_labels(s: Signals) -> Seq<Seq<char>> {
    label_if(s.password_input, LABEL_PASSWORD_INPUT@) + label_if(
        s.search_input,
        LABEL_SEARCH_INPUT@,
    ) + label_if(s.negative_context, LABEL_NEGATIVE_CONTEXT@)
}

/// The verdict for a set of signals.
pub open spec fn verdict(s: Signals) -> ScoreView {
    ScoreView {
        score: clamp_score(raw_score(s)),
        positives: positive_labels(s),
        negatives: negative_labels(s),
    }
}

/// The verdict for a page.
pub open spec fn classify(html: Seq<char>) -> ScoreView {
    verdict(signals_of(html))
}

fn push_label(v: &mut Vec<String>, present: bool, label: &str)
    ensures
        final(v)@.map_values(|s: String| s@) == old(v)@.map_values(|s: String| s@) + label_if(
            present,
            label@,
        ),
{
    let ghost before = v@.map_values(|s: String| s@);
    if present {
        v.push(label.to_string());
        assert(v@.map_values(|s: String| s@) =~= before + seq![label@]);
    } else {
        assert(v@.map_values(|s: String| s@) =~= before + Seq::<Seq<char>>::empty());
    }
}

/// Scores a set of signals: each present signal adds its weight once, and
/// the sum is clamped to `0..=100`.
pub fn score_signals(s: Signals) -> (r: ScoreResult)
    ensures
        r@ == verdict(s),
        0 <= r.score <= 100,
{
    let mut score: i32 = 0;
    if s.email_input {
        score += 28;
    }
    if s.textarea {
        score += 28;
    }
    if s.submit_button {
        score += 12;
    }
    if s.field_labels {
        score += 12;
    }
    if s.contact_context {
        score += 20;
    }
    if s.password_input {
        score -= 38;
    }
    if s.search_input {
        score -= 18;
    }
    if s.negative_context {
        score -= 18;
    }
    assert(score == raw_score(s));
    if score < 0 {
        score = 0;
    }
    if score > 100 {
        score = 100;
    }
    let mut pos: Vec<String> = Vec::new();
    assert(pos@.map_values(|x: String| x@) =~= Seq::<Seq<char>>::empty());
    push_label(&mut pos, s.email_input, LABEL_EMAIL_INPUT);
    push_label(&mut pos, s.textarea, LABEL_TEXTAREA);
    push_label(&mut pos, s.submit_button, LABEL_SUBMIT_BUTTON);
    push_label(&mut pos, s.field_labels, LABEL_FIELD_LABELS);
    push_label(&mut pos, s.contact_context, LABEL_CONTACT_CONTEXT);
    let mut neg: Vec<String> = Vec::new();
    assert(neg@.map_values(|x: String| x@) =~= Seq::<Seq<char>>::empty());
    push_label(&mut neg, s.password_input, LABEL_PASSWORD_INPUT);
    push_label(&mut neg, s.search_input, LABEL_SEARCH_INPUT);
    push_label(&mut neg, s.negative_context, LABEL_NEGATIVE_CONTEXT);
    let r = ScoreResult { score, positives: pos, negatives: neg };
    assert(r@.positives =~= positive_labels(s));
    assert(r@.negatives =~= negative_labels(s));
    r
}

fn fires_in(pattern: &str, text: &str) -> (r: bool)
    ensures
        r == fires(pattern@, text@),
{
    match regex_is_match(pattern, text) {
        Some(b) => b,
        None => false,
    }
}

/// The page text of an HTML document: scripts, styles, comments and tags
/// replaced by spaces.
pub fn page_text(html: &str) -> (r: String)
    ensures
        r@ == page_text_of(html@),
{
    match regex_replace_all(MARKUP_PATTERN, html, " ") {
        Some(t) => t,
        None => html.to_string(),
    }
}

/// The signals present in an HTML document.
pub fn detect_signals(html: &str) -> (r: Signals)
    ensures
        r == signals_of(html@),
{
    let text = page_text(html);
    Signals {
        email_input: fires_in(EMAIL_INPUT_PATTERN, html),
        textarea: fires_in(TEXTAREA_PATTERN, html),
        submit_button: fires_in(SUBMIT_BUTTON_PATTERN, html),
        field_labels: fires_in(FIELD_LABELS_PATTERN, text.as_str()),
        contact_context: fires_in(CONTACT_CONTEXT_PATTERN, text.as_str()),
        password_input: fires_in(PASSWORD_INPUT_PATTERN, html),
        search_input: fires_in(SEARCH_INPUT_PATTERN, html),
        negative_context: fires_in(NEGATIVE_CONTEXT_PATTERN, text.as_str()),
    }
}

/// Scores how much an HTML page looks like a business contact form.
/// A score of 60 or more is almost surely one; 40 to 59 is a strong
/// candidate; below 40 is unlikely.
pub fn score_contact_form_like(html: &str) -> (r: ScoreResult)
    ensures
        r@ == classify(html@),
        0 <= r.score <= 100,
{
    score_signals(detect_signals(html))
}

/// The score of every page lies in `0..=100`.
pub proof fn lemma_score_in_range(html: Seq<char>)
    ensures
        0 <= classify(html).score <= 100,
{
}

/// The verdict on a page depends on its markup alone: scoring the same
/// markup twice gives the same score and the same signal labels.
pub proof fn lemma_classifier_deterministic(a: Seq<char>, b: Seq<char>)
    requires
        a == b,
    ensures
        classify(a) == classify(b),
{
}

} // verus!
