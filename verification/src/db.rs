//! Pastes as they are stored: their references, their ids and when they expire.

use time::OffsetDateTime;
use vstd::prelude::*;
use vstd::string::*;
use crate::error::AppError;
use crate::state::{AppResult, CreatePasteForm};
use crate::text::{parse_number, rsplit_once, same, strip_suffix, to_ascii_lowercase, trim, trim_end_matches};

verus! {

/// The length of a paste's id.
pub const ID_LEN: usize = 10;

/// Seconds in an hour.
pub const HOUR: u64 = 3600;

/// The id and the extension in a reference to a paste: the two sides of its last dot, where
/// neither is empty.
pub open spec fn paste_ref_parts(paste_ref: Seq<char>) -> (Seq<char>, Option<Seq<char>>) {
    match crate::text::last_split(paste_ref, '.') {
        Some((id, extension)) => if id.len() > 0 && extension.len() > 0 {
            (id, Some(extension))
        } else {
            (paste_ref, None)
        },
        None => (paste_ref, None),
    }
}

/// Splits a reference to a paste, such as `abc123.rs`, into its id and its extension.
pub fn split_paste_ref(paste_ref: &str) -> (r: (&str, Option<&str>))
    ensures
        (r.0@, crate::state::text_of(r.1)) == paste_ref_parts(paste_ref@),
{
    match rsplit_once(paste_ref, '.') {
        Some((id, extension)) => if !id.is_empty() && !extension.is_empty() {
            (id, Some(extension))
        } else {
            (paste_ref, None)
        },
        None => (paste_ref, None),
    }
}

/// The parts of a reference make up the reference.
pub proof fn law_parts_make_up_the_reference(paste_ref: Seq<char>)
    ensures
        match paste_ref_parts(paste_ref) {
            (id, Some(extension)) => id + seq!['.'] + extension == paste_ref && id.len() > 0
                && extension.len() > 0 && !extension.contains('.'),
            (id, None) => id == paste_ref,
        },
{
    let class = crate::chars::Class::Is('.');
    let n = crate::text::last_end(paste_ref, class);
    crate::text::lemma_last_end(paste_ref, class);
    if n > 0 {
        let id = paste_ref.take(n - 1);
        let extension = paste_ref.skip(n);
        assert(id + seq!['.'] + extension =~= paste_ref);
        if extension.contains('.') {
            let i = choose|i: int| 0 <= i < extension.len() && extension[i] == '.';
            assert(paste_ref[n + i] == '.');
        }
    }
}

/// A reference made of an id and an extension without a dot is split into the two again.
pub proof fn law_reference_is_split_again(id: Seq<char>, extension: Seq<char>)
    requires
        id.len() > 0,
        extension.len() > 0,
        !extension.contains('.'),
    ensures
        paste_ref_parts(id + seq!['.'] + extension) == (id, Some(extension)),
{
    let class = crate::chars::Class::Is('.');
    let all = id + seq!['.'] + extension;
    assert forall|i: int| id.len() + 1 <= i < all.len() implies !class.has_char(#[trigger] all[i]) by {
        assert(all[i] == extension[i - id.len() - 1]);
        assert(extension.contains(all[i]));
    }
    crate::text::lemma_last_end_is(all, class, id.len() as int + 1);
    assert(all.take(id.len() as int) =~= id);
    assert(all.skip(id.len() as int + 1) =~= extension);
}

/// A reference without a dot is an id.
pub proof fn law_plain_id_is_kept(id: Seq<char>)
    requires
        !id.contains('.'),
    ensures
        paste_ref_parts(id) == (id, None::<Seq<char>>),
{
    let class = crate::chars::Class::Is('.');
    assert forall|i: int| 0 <= i < id.len() implies !class.has_char(#[trigger] id[i]) by {
        assert(id.contains(id[i]));
    }
    crate::text::lemma_last_end_is(id, class, 0);
}

/// The characters of an optional string.
pub open spec fn opt(v: Option<String>) -> Option<Seq<char>> {
    crate::config::value_of(v)
}

/// A form in the shape in which it is stored: without white space around the expiry, the file
/// name and the language, with the language in lower case, and without carriage returns at the
/// end of the content. A form without an expiry never expires.
pub open spec fn sanitized_form(form: crate::extractors::FormView) -> crate::extractors::FormView {
    crate::extractors::FormView {
        expires_in: Some(
            crate::text::trimmed(
                match form.expires_in {
                    Some(e) => e,
                    None => "never"@,
                },
            ),
        ),
        filename: match form.filename {
            Some(f) => Some(crate::text::trimmed(f)),
            None => None,
        },
        language: match form.language {
            Some(l) => Some(crate::text::lowered(crate::text::trimmed(l))),
            None => None,
        },
        content: match form.content {
            Some(c) => Some(crate::text::without_back(c, '\r')),
            None => None,
        },
        from_browser: form.from_browser,
    }
}

/// Bringing a form into shape a second time changes nothing.
pub proof fn law_sanitizing_is_stable(form: crate::extractors::FormView)
    ensures
        sanitized_form(sanitized_form(form)) == sanitized_form(form),
{
    let expires_in = match form.expires_in {
        Some(e) => e,
        None => "never"@,
    };
    crate::text::lemma_trimmed_again(expires_in);
    if form.filename is Some {
        crate::text::lemma_trimmed_again(form.filename->0);
    }
    if form.language is Some {
        crate::text::lemma_trimmed_lowered(form.language->0);
    }
    if form.content is Some {
        let c = form.content->0;
        let class = crate::chars::Class::IsNot('\r');
        let n = crate::text::last_end(c, class);
        crate::text::lemma_last_end(c, class);
        crate::text::lemma_last_end_is(c.take(n), class, n);
        assert(c.take(n).take(n) =~= c.take(n));
    }
}

/// Content is stored as it was given, but for carriage returns at its very end.
pub proof fn law_content_is_stored_as_given(form: crate::extractors::FormView)
    requires
        form.content is Some,
    ensures
        sanitized_form(form).content matches Some(c) && c.is_prefix_of(form.content->0),
        form.content->0.len() > 0 && form.content->0.last() != '\r' ==> sanitized_form(form).content
            == form.content,
{
    let c = form.content->0;
    let class = crate::chars::Class::IsNot('\r');
    let n = crate::text::last_end(c, class);
    crate::text::lemma_last_end(c, class);
    assert(c.subrange(0, n) =~= c.take(n));
    if c.len() > 0 && c.last() != '\r' {
        crate::text::lemma_last_end_is(c, class, c.len() as int);
        assert(c.take(c.len() as int) =~= c);
    }
}

/// Brings a form into the shape in which it is stored.
pub fn sanitize_form(form: CreatePasteForm) -> (r: CreatePasteForm)
    ensures
        r@ == sanitized_form(form@),
{
    let expires_in: String = match &form.expires_in {
        Some(e) => trim(e.as_str()).to_owned(),
        None => trim("never").to_owned(),
    };
    let content: Option<String> = match &form.content {
        Some(c) => Some(trim_end_matches(c.as_str(), '\r').to_owned()),
        None => None,
    };
    let filename: Option<String> = match &form.filename {
        Some(f) => Some(trim(f.as_str()).to_owned()),
        None => None,
    };
    let language: Option<String> = match &form.language {
        Some(l) => Some(to_ascii_lowercase(trim(l.as_str()))),
        None => None,
    };
    CreatePasteForm {
        expires_in: Some(expires_in),
        filename,
        language,
        content,
        from_browser: form.from_browser,
    }
}

/// The seconds that a lifetime stands for: a number of seconds, or of hours with `h` behind it.
pub open spec fn lifetime(value: Seq<char>) -> Option<nat> {
    match crate::text::before_suffix(value, "h"@) {
        Some(hours) => match crate::text::parsed(hours, i64::MAX as nat) {
            Some(n) => if n * HOUR as nat <= i64::MAX {
                Some(n * HOUR as nat)
            } else {
                None
            },
            None => None,
        },
        None => crate::text::parsed(value, i64::MAX as nat),
    }
}

/// When a paste with the given expiry that is created at `now` expires: `Some(None)` stands for
/// never, `None` for an expiry that is not understood.
pub open spec fn expiry(value: Seq<char>, now: i64) -> Option<Option<i64>> {
    if value == "never"@ || value.len() == 0 {
        Some(None)
    } else {
        match lifetime(value) {
            Some(seconds) => if seconds > 0 && now + seconds <= i64::MAX {
                Some(Some((now + seconds) as i64))
            } else {
                None
            },
            None => None,
        }
    }
}

/// Whether a paste can still be read.
pub open spec fn is_live(expires_at: Option<i64>, now: i64) -> bool {
    match expires_at {
        Some(at) => at > now,
        None => true,
    }
}

/// A paste can be read when it is created, whatever its expiry.
pub proof fn law_new_pastes_are_live(value: Seq<char>, now: i64)
    ensures
        expiry(value, now) matches Some(expires_at) ==> is_live(expires_at, now),
{
}

/// A paste that can be read later could be read before.
pub proof fn law_expired_pastes_stay_expired(expires_at: Option<i64>, earlier: i64, later: i64)
    requires
        earlier <= later,
    ensures
        is_live(expires_at, later) ==> is_live(expires_at, earlier),
{
}

/// Reads a lifetime.
fn parse_lifetime(value: &str) -> (r: Option<u64>)
    ensures
        r matches Some(n) ==> lifetime(value@) == Some(n as nat) && n <= i64::MAX,
        r is None ==> lifetime(value@) is None,
{
    match strip_suffix(value, "h") {
        Some(hours) => match parse_number(hours, i64::MAX as u64) {
            Some(n) => match n.checked_mul(HOUR) {
                Some(seconds) => if seconds <= i64::MAX as u64 {
                    Some(seconds)
                } else {
                    None
                },
                None => None,
            },
            None => None,
        },
        None => parse_number(value, i64::MAX as u64),
    }
}

/// Computes when a paste created at `now` expires.
pub fn parse_expiry_at(value: &str, now: i64) -> (r: Option<Option<i64>>)
    ensures
        r == expiry(value@, now),
{
    if same(value, "never") || value.is_empty() {
        return Some(None);
    }
    match parse_lifetime(value) {
        Some(seconds) => if seconds == 0 {
            None
        } else {
            match now.checked_add(seconds as i64) {
                Some(at) => Some(Some(at)),
                None => None,
            }
        },
        None => None,
    }
}

/// The farthest from 1970, in seconds, that a clock can be: the calendar ends before the year one
/// million.
pub const CLOCK_LIMIT: i64 = 32_000_000_000_000;

/// Whether a clock can show a time.
pub open spec fn is_clock_time(t: i64) -> bool {
    -CLOCK_LIMIT <= t <= CLOCK_LIMIT
}

/// Whether a lifetime is understood and ends in time, whenever it starts.
pub open spec fn always_ends(value: Seq<char>) -> bool {
    lifetime(value) matches Some(seconds) && 0 < seconds <= i64::MAX - CLOCK_LIMIT
}

/// The time in seconds since 1970 (`time::OffsetDateTime::now_utc` and `unix_timestamp`): one of
/// the calendar, whose years end before one million, forwards and backwards.
#[verifier::external_body]
pub(crate) fn now_timestamp() -> (r: i64)
    ensures
        is_clock_time(r),
{
    OffsetDateTime::now_utc().unix_timestamp()
}

/// Computes when a paste created now expires.
pub fn parse_expiry(value: &str) -> (r: Option<Option<i64>>)
    ensures
        exists|now: i64| is_clock_time(now) && r == #[trigger] expiry(value@, now),
        value@ == "never"@ || value@.len() == 0 ==> r == Some(None::<i64>),
        value@ != "never"@ && value@.len() > 0 && always_ends(value@) ==> r matches Some(Some(_)),
{
    let now: i64 = now_timestamp();
    parse_expiry_at(value, now)
}

/// The characters of an id.
pub open spec fn is_id_char(c: char) -> bool {
    '0' <= c <= '9' || 'a' <= c <= 'z' || 'A' <= c <= 'Z' || c == '_' || c == '-'
}

/// Whether a text has the shape of an id.
pub open spec fn is_id(s: Seq<char>, len: nat) -> bool {
    s.len() == len && forall|i: int| 0 <= i < s.len() ==> is_id_char(#[trigger] s[i])
}

/// Makes a random id (`nanoid::format` with its alphabet `SAFE`): `len` letters, digits,
/// underscores and hyphens. Which ones is left to chance.
#[verifier::external_body]
fn random_id(len: usize) -> (r: String)
    requires
        0 < len,
        8 * len <= usize::MAX,
    ensures
        is_id(r@, len as nat),
{
    nanoid::format(nanoid::rngs::default, &nanoid::alphabet::SAFE, len)
}

/// An id holds no dot and no colon, so a reference to it and a cache key for it are unambiguous.
pub proof fn law_ids_are_unambiguous(id: Seq<char>)
    requires
        is_id(id, ID_LEN as nat),
    ensures
        id.len() == 10,
        !id.contains('.'),
        !id.contains(':'),
        paste_ref_parts(id) == (id, None::<Seq<char>>),
{
    if id.contains('.') {
        let i = choose|i: int| 0 <= i < id.len() && id[i] == '.';
        assert(is_id_char(id[i]));
    }
    if id.contains(':') {
        let i = choose|i: int| 0 <= i < id.len() && id[i] == ':';
        assert(is_id_char(id[i]));
    }
    law_plain_id_is_kept(id);
}

/// A paste that is to be stored.
pub struct NewPaste {
    pub id: String,
    pub language: Option<String>,
    pub content: String,
    pub created_at: i64,
    pub expires_at: Option<i64>,
}

/// What a [`NewPaste`] holds.
pub struct PasteView {
    pub id: Seq<char>,
    pub language: Option<Seq<char>>,
    pub content: Seq<char>,
    pub created_at: i64,
    pub expires_at: Option<i64>,
}

impl View for NewPaste {
    type V = PasteView;

    open spec fn view(&self) -> PasteView {
        PasteView {
            id: self.id@,
            language: opt(self.language),
            content: self.content@,
            created_at: self.created_at,
            expires_at: self.expires_at,
        }
    }
}

/// The paste that a form asks for, with the given id, as of `now`, or why there is none.
pub open spec fn prepared(form: crate::extractors::FormView, id: Seq<char>, now: i64) -> Result<
    PasteView,
    crate::error::ErrorView,
> {
    let asked = match form.expires_in {
        Some(e) => e,
        None => "never"@,
    };
    match refusal(form.content, expiry(asked, now)) {
        Some(e) => Err(e),
        None => Ok(
            PasteView {
                id,
                language: form.language,
                content: form.content->0,
                created_at: now,
                expires_at: expiry(asked, now)->0,
            },
        ),
    }
}

/// Why a form cannot be stored when its expiry was found to be `expires_at`.
pub open spec fn refusal(content: Option<Seq<char>>, expires_at: Option<Option<i64>>) -> Option<
    crate::error::ErrorView,
> {
    if content is None || content->0.len() == 0 {
        Some(crate::error::ErrorView::UnprocessableEntity("Can't paste empty input!"@))
    } else if expires_at is None {
        Some(crate::error::ErrorView::BadRequest("Invalid expiry option."@))
    } else {
        None
    }
}

/// The expiry that a form asks for.
pub open spec fn asked_expiry(form: CreatePasteForm) -> Seq<char> {
    match form.expires_in {
        Some(e) => e@,
        None => "never"@,
    }
}

/// Makes the paste that a form asks for, with the given id, as of `now`.
pub fn prepare_paste(form: CreatePasteForm, id: String, now: i64) -> (r: AppResult<NewPaste>)
    ensures
        r matches Ok(paste) ==> {
            &&& refusal(opt(form.content), expiry(asked_expiry(form), now)) is None
            &&& paste.id@ == id@
            &&& opt(paste.language) == opt(form.language)
            &&& Some(paste.content@) == opt(form.content)
            &&& paste.created_at == now
            &&& expiry(asked_expiry(form), now) == Some(paste.expires_at)
        },
        r matches Err(e) ==> refusal(opt(form.content), expiry(asked_expiry(form), now)) == Some(e@),
        r matches Ok(paste) ==> prepared(form@, id@, now) matches Ok(p) && p == paste@,
        r matches Err(e) ==> prepared(form@, id@, now) matches Err(w) && w == e@,
{
    let content: String = match form.content {
        Some(c) => c,
        None => {
            return Err(AppError::UnprocessableEntity("Can't paste empty input!".to_owned()));
        },
    };
    if content.as_str().is_empty() {
        return Err(AppError::UnprocessableEntity("Can't paste empty input!".to_owned()));
    }
    let expires_in: &str = match &form.expires_in {
        Some(e) => e.as_str(),
        None => "never",
    };
    match parse_expiry_at(expires_in, now) {
        Some(expires_at) => Ok(
            NewPaste { id, language: form.language, content, created_at: now, expires_at },
        ),
        None => Err(AppError::BadRequest("Invalid expiry option.".to_owned())),
    }
}

/// Makes the paste that a form asks for, with a new id, as of now.
pub fn new_paste(form: CreatePasteForm) -> (r: AppResult<NewPaste>)
    ensures
        opt(form.content) is None || opt(form.content)->0.len() == 0 ==> r is Err && r->Err_0@
            == crate::error::ErrorView::UnprocessableEntity("Can't paste empty input!"@),
        r matches Err(e) ==> exists|now: i64|
            is_clock_time(now) && refusal(
                opt(form.content),
                #[trigger] expiry(asked_expiry(form), now),
            ) == Some(e@),
        opt(form.content) is Some && opt(form.content)->0.len() > 0 && (asked_expiry(form)
            == "never"@ || asked_expiry(form).len() == 0 || always_ends(asked_expiry(form)))
            ==> r is Ok,
        r matches Ok(paste) ==> {
            &&& is_id(paste.id@, ID_LEN as nat)
            &&& opt(paste.language) == opt(form.language)
            &&& Some(paste.content@) == opt(form.content)
            &&& paste.content@.len() > 0
            &&& is_clock_time(paste.created_at)
            &&& expiry(asked_expiry(form), paste.created_at) == Some(paste.expires_at)
            &&& is_live(paste.expires_at, paste.created_at)
        },
        r matches Ok(paste) ==> prepared(form@, paste.id@, paste.created_at) matches Ok(p) && p
            == paste@,
{
    let id: String = random_id(ID_LEN);
    let now: i64 = now_timestamp();
    proof {
        law_new_pastes_are_live(asked_expiry(form), now);
        assert(expiry(asked_expiry(form), now) == expiry(asked_expiry(form), now));
    }
    prepare_paste(form, id, now)
}

/// A lifetime is a number of seconds, or of hours with `h` behind it, counted from when the paste
/// is created; `never` and an empty expiry stand for no end. A lifetime of nothing and one that
/// ends beyond all time are refused.
pub proof fn law_lifetimes_count_from_creation(n: nat, now: i64)
    ensures
        expiry(crate::listing::decimal(n), now) == (if 0 < n && n <= i64::MAX && now + n
            <= i64::MAX {
            Some(Some((now + n) as i64))
        } else {
            None
        }),
        expiry(crate::listing::decimal(n) + seq!['h'], now) == (if 0 < n && 3600 * n <= i64::MAX
            && now + 3600 * n <= i64::MAX {
            Some(Some((now + 3600 * n) as i64))
        } else {
            None
        }),
        expiry(seq!['n', 'e', 'v', 'e', 'r'], now) == Some(None::<i64>),
        expiry(seq![], now) == Some(None::<i64>),
{
    reveal_strlit("never");
    reveal_strlit("h");
    assert("never"@ =~= seq!['n', 'e', 'v', 'e', 'r']);
    assert("h"@ =~= seq!['h']);
    let d = crate::listing::decimal(n);
    crate::listing::law_decimal_is_read_back(n);
    crate::text::law_numbers_are_read(d, n, i64::MAX as nat);
    assert('0' <= d[0] <= '9');
    assert('0' <= d[d.len() - 1] <= '9');
    if seq!['h'].is_suffix_of(d) {
        assert(d.subrange(d.len() - 1, d.len() as int)[0] == 'h');
    }
    assert(d[0] != 'n');
    let hours = d + seq!['h'];
    assert(hours[0] == d[0]);
    crate::text::law_suffix_is_taken_off(hours, d, seq!['h']);
    if n <= i64::MAX {
        assert(n * (HOUR as nat) == 3600 * n) by (nonlinear_arith)
            requires
                HOUR == 3600,
        ;
    } else {
        assert(3600 * n > i64::MAX);
    }
}

/// A paste with a lifetime of `n` seconds can be read from when it is created until they are over,
/// and not a moment longer; one without an end can always be read.
pub proof fn law_pastes_live_for_their_lifetime(n: nat, created: i64, now: i64)
    requires
        0 < n,
        created + n <= i64::MAX,
        n <= i64::MAX,
    ensures
        expiry(crate::listing::decimal(n), created) matches Some(expires_at) && (is_live(
            expires_at,
            now,
        ) <==> now < created + n),
        is_live(None, now),
{
    law_lifetimes_count_from_creation(n, created);
}

/// What a form says is stored without white space around it, the language in lower case, and a
/// form that says nothing of its lifetime asks for none. Content keeps everything but carriage
/// returns at its very end.
pub proof fn law_forms_are_tidied(
    form: crate::extractors::FormView,
    a: Seq<char>,
    t: Seq<char>,
    b: Seq<char>,
    content: Seq<char>,
    tail: Seq<char>,
)
    requires
        forall|i: int| 0 <= i < a.len() ==> crate::chars::is_white(#[trigger] a[i]),
        forall|i: int| 0 <= i < b.len() ==> crate::chars::is_white(#[trigger] b[i]),
        t.len() > 0 ==> !crate::chars::is_white(t[0]) && !crate::chars::is_white(t.last()),
        content.len() > 0 ==> content.last() != '\r',
        forall|i: int| 0 <= i < tail.len() ==> #[trigger] tail[i] == '\r',
    ensures
        form.expires_in == Some(a + t + b) ==> sanitized_form(form).expires_in == Some(t),
        form.expires_in is None ==> sanitized_form(form).expires_in == Some(
            seq!['n', 'e', 'v', 'e', 'r'],
        ),
        form.filename == Some(a + t + b) ==> sanitized_form(form).filename == Some(t),
        form.filename is None ==> sanitized_form(form).filename is None,
        form.language == Some(a + t + b) ==> sanitized_form(form).language == Some(
            crate::text::lowered(t),
        ),
        form.language is None ==> sanitized_form(form).language is None,
        form.content == Some(content + tail) ==> sanitized_form(form).content == Some(content),
        form.content is None ==> sanitized_form(form).content is None,
        sanitized_form(form).from_browser == form.from_browser,
{
    reveal_strlit("never");
    let never = seq!['n', 'e', 'v', 'e', 'r'];
    assert("never"@ =~= never);
    crate::text::law_white_space_is_trimmed(a, t, b);
    crate::text::law_white_space_is_trimmed(seq![], never, seq![]);
    assert(seq![] + never + seq![] =~= never);
    let s = content + tail;
    let class = crate::chars::Class::IsNot('\r');
    let n = content.len() as int;
    if n > 0 {
        assert(s[n - 1] == content.last());
    }
    assert forall|i: int| n <= i < s.len() implies !class.has_char(#[trigger] s[i]) by {
        assert(s[i] == tail[i - n]);
    }
    crate::text::lemma_last_end_is(s, class, n);
    assert(s.take(n) =~= content);
}

/// A form is stored unless its content is empty or missing, or its expiry is not understood.
pub proof fn law_forms_are_refused_for_two_reasons(
    content: Option<Seq<char>>,
    expires_at: Option<Option<i64>>,
)
    ensures
        refusal(content, expires_at) is None <==> content is Some && content->0.len() > 0
            && expires_at is Some,
        refusal(content, expires_at) is Some && (content is None || content->0.len() == 0)
            ==> refusal(content, expires_at)->0 is UnprocessableEntity,
        refusal(content, expires_at) is Some && content is Some && content->0.len() > 0 ==> refusal(
            content,
            expires_at,
        )->0 is BadRequest,
{
}

/// A form that is stored keeps its content and its language, under the id that was made for it,
/// with the time at which it came and the end of its lifetime.
pub proof fn law_stored_pastes_hold_the_form(
    form: crate::extractors::FormView,
    id: Seq<char>,
    now: i64,
)
    ensures
        match prepared(form, id, now) {
            Ok(p) => {
                &&& form.content == Some(p.content)
                &&& p.content.len() > 0
                &&& p.language == form.language
                &&& p.id == id
                &&& p.created_at == now
                &&& form.expires_in matches Some(e) ==> expiry(e, now) == Some(p.expires_at)
                &&& form.expires_in is None ==> p.expires_at is None
                &&& is_live(p.expires_at, now)
            },
            Err(e) => form.content is None || form.content->0.len() == 0 || (
            form.expires_in matches Some(asked) && expiry(asked, now) is None),
        },
{
    if let Some(e) = form.expires_in {
        law_new_pastes_are_live(e, now);
    }
}

/// A lifetime of up to nine quintillion seconds ends in time, whenever it starts, and the clock
/// shows any time of the next and the last million years.
pub proof fn law_ordinary_lifetimes_end_in_time(n: nat, t: i64)
    ensures
        0 < n <= 9_000_000_000_000_000_000 ==> always_ends(crate::listing::decimal(n)),
        -31_600_000_000_000 <= t <= 31_600_000_000_000 ==> is_clock_time(t),
        is_clock_time(t) ==> -100_000_000_000_000 < t < 100_000_000_000_000,
{
    reveal_strlit("h");
    assert("h"@ =~= seq!['h']);
    let d = crate::listing::decimal(n);
    crate::listing::law_decimal_is_read_back(n);
    crate::text::law_numbers_are_read(d, n, i64::MAX as nat);
    assert('0' <= d[d.len() - 1] <= '9');
    if seq!['h'].is_suffix_of(d) {
        assert(d.subrange(d.len() - 1, d.len() as int)[0] == 'h');
    }
}

} // verus!
