use crate::text::{
    chars_of, find, find_in, is_space, lemma_find, lemma_first_word, lines, occurs_at, matches_at, next_line, next_word, parse_u16, parse_u16_at,
    split_ws, strip_prefix,
};
use vstd::prelude::*;

verus! {

/// Owner of the repository whose star unlocks supporter mode.
pub const OWNER: &'static str = "Yeachan-Heo";

/// Name of that repository.
pub const REPO: &'static str = "oh-my-codex";

/// Where that repository lives.
pub const REPO_URL: &'static str = "github.com/Yeachan-Heo/oh-my-codex";

/// The outcome of the GitHub star check.
#[derive(Debug, Clone, PartialEq, Eq)]
pub enum SupportMode {
    Starred { login: String },
    NotStarred { login: String },
    Unavailable { message: String },
}

/// `SupportMode` with its strings taken as character sequences.
pub enum SupportModeView {
    Starred(Seq<char>),
    NotStarred(Seq<char>),
    Unavailable(Seq<char>),
}

impl View for SupportMode {
    type V = SupportModeView;

    open spec fn view(&self) -> SupportModeView {
        match self {
            SupportMode::Starred { login } => SupportModeView::Starred(login@),
            SupportMode::NotStarred { login } => SupportModeView::NotStarred(login@),
            SupportMode::Unavailable { message } => SupportModeView::Unavailable(message@),
        }
    }
}

/// What a `gh` command printed (standard output, then standard error) and
/// whether it exited successfully.
pub struct CommandOutput {
    pub success: bool,
    pub text: String,
}

// ---------------------------------------------------------------------------
// Reading `gh` output
// ---------------------------------------------------------------------------

pub open spec fn account_marker() -> Seq<char> {
    seq!['a', 'c', 'c', 'o', 'u', 'n', 't', ' ']
}

pub open spec fn http_marker() -> Seq<char> {
    seq!['H', 'T', 'T', 'P', '/']
}

/// The login on one line of `gh auth status`: the first word after
/// `"account "`.
pub open spec fn login_in_line(line: Seq<char>) -> Option<Seq<char>> {
    match find(line, account_marker()) {
        Some(k) => {
            let words = split_ws(line.skip((k + account_marker().len()) as int));
            if words.len() > 0 {
                Some(words[0])
            } else {
                None
            }
        },
        None => None,
    }
}

/// The login of the first line that names one.
pub open spec fn first_login(ls: Seq<Seq<char>>) -> Option<Seq<char>>
    decreases ls.len(),
{
    if ls.len() == 0 {
        None
    } else {
        match login_in_line(ls[0]) {
            Some(l) => Some(l),
            None => first_login(ls.drop_first()),
        }
    }
}

/// The status code on one line of `gh api -i`: a line that starts with
/// `"HTTP/"` and whose second word reads as a `u16`.
pub open spec fn status_in_line(line: Seq<char>) -> Option<u16> {
    match strip_prefix(line, http_marker()) {
        Some(rest) => {
            let parts = split_ws(rest);
            if parts.len() > 1 {
                parse_u16(parts[1])
            } else {
                None
            }
        },
        None => None,
    }
}

/// The status code of the first line that carries one.
pub open spec fn first_status(ls: Seq<Seq<char>>) -> Option<u16>
    decreases ls.len(),
{
    if ls.len() == 0 {
        None
    } else {
        match status_in_line(ls[0]) {
            Some(c) => Some(c),
            None => first_status(ls.drop_first()),
        }
    }
}

fn login_at(v: &Vec<char>, start: usize, stop: usize, marker: &Vec<char>) -> (r: Option<
    (usize, usize),
>)
    requires
        start <= stop <= v.len(),
        marker@ == account_marker(),
    ensures
        match login_in_line(v@.subrange(start as int, stop as int)) {
            Some(l) => r matches Some((a, b)) && a <= b <= v.len() && v@.subrange(
                a as int,
                b as int,
            ) == l,
            None => r is None,
        },
{
    let ghost line = v@.subrange(start as int, stop as int);
    match find_in(v, start, stop, marker) {
        None => None,
        Some(i) => {
            proof {
                crate::text::lemma_find(line, marker@);
                let k = (i - start) as int;
                assert(crate::text::occurs_at(line, marker@, k));
                assert(line.skip(k + 8) =~= v@.subrange(i + 8, stop as int));
            }
            let after = i + 8;
            match next_word(v, after, stop) {
                None => None,
                Some((a, b)) => Some((a, b)),
            }
        },
    }
}

/// The login that `gh auth status` reports: on the first line that holds
/// `"account "`, the first word after it.
pub fn extract_login(text: &str) -> (r: Option<String>)
    ensures
        match first_login(lines(text@)) {
            Some(l) => r matches Some(s) && s@ == l,
            None => r is None,
        },
{
    let v = chars_of(text);
    let marker = vec!['a', 'c', 'c', 'o', 'u', 'n', 't', ' '];
    assert(marker@ =~= account_marker());
    let len = v.len();
    let mut pos: usize = 0;
    assert(v@.subrange(0, len as int) =~= v@);
    while pos < len
        invariant
            pos <= len == v.len(),
            v@ == text@,
            marker@ == account_marker(),
            first_login(lines(text@)) == first_login(lines(v@.subrange(pos as int, len as int))),
        decreases len - pos,
    {
        let (ls, le, next) = next_line(&v, pos);
        match login_at(&v, ls, le, &marker) {
            Some((a, b)) => {
                let login = text.substring_char(a, b).to_owned();
                return Some(login);
            },
            None => {},
        }
        pos = next;
    }
    assert(v@.subrange(len as int, len as int) =~= Seq::<char>::empty());
    None
}

fn status_at(v: &Vec<char>, start: usize, stop: usize, marker: &Vec<char>) -> (r: Option<u16>)
    requires
        start <= stop <= v.len(),
        marker@ == http_marker(),
    ensures
        r == status_in_line(v@.subrange(start as int, stop as int)),
{
    let ghost line = v@.subrange(start as int, stop as int);
    if !matches_at(v, start, stop, marker) {
        proof {
            if 5 <= line.len() {
                assert(line.take(5) =~= v@.subrange(start as int, start + 5));
            }
        }
        return None;
    }
    let rest = start + 5;
    proof {
        assert(line.take(5) =~= v@.subrange(start as int, start + 5));
        assert(line.skip(5) =~= v@.subrange(rest as int, stop as int));
    }
    match next_word(v, rest, stop) {
        None => None,
        Some((_a, b)) => match next_word(v, b, stop) {
            None => None,
            Some((c, d)) => parse_u16_at(v, c, d),
        },
    }
}

/// The HTTP status code that `gh api -i` reports: on the first line that
/// starts with `"HTTP/"` and has a second word that reads as a `u16`, that
/// number.
pub fn parse_star_status(text: &str) -> (r: Option<u16>)
    ensures
        r == first_status(lines(text@)),
{
    let v = chars_of(text);
    let marker = vec!['H', 'T', 'T', 'P', '/'];
    assert(marker@ =~= http_marker());
    let len = v.len();
    let mut pos: usize = 0;
    assert(v@.subrange(0, len as int) =~= v@);
    while pos < len
        invariant
            pos <= len == v.len(),
            v@ == text@,
            marker@ == http_marker(),
            first_status(lines(text@)) == first_status(lines(v@.subrange(pos as int, len as int))),
        decreases len - pos,
    {
        let (ls, le, next) = next_line(&v, pos);
        match status_at(&v, ls, le, &marker) {
            Some(code) => {
                return Some(code);
            },
            None => {},
        }
        pos = next;
    }
    assert(v@.subrange(len as int, len as int) =~= Seq::<char>::empty());
    None
}

// ---------------------------------------------------------------------------
// What the support mode shows
// ---------------------------------------------------------------------------

/// The heading line shown for a mode.
pub open spec fn status_heading_of(m: SupportModeView) -> Seq<char> {
    match m {
        SupportModeView::Starred(login) => login + ": repository star detected"@,
        SupportModeView::NotStarred(login) => login + ": repository star not detected"@,
        SupportModeView::Unavailable(_) => "GitHub star status unavailable"@,
    }
}

/// The detail line shown for a mode.
pub open spec fn status_detail_of(m: SupportModeView) -> Seq<char> {
    match m {
        SupportModeView::Starred(_) => "Supporter mode: normal obstacle pacing unlocked"@,
        SupportModeView::NotStarred(_) =>
            "You have not starred this repository, so this feature is unavailable until you star it."@,
        SupportModeView::Unavailable(message) => "Verification unavailable: "@ + message,
    }
}

impl SupportMode {
    /// The repository whose star is checked.
    pub fn repo_url(&self) -> (url: &'static str)
        ensures
            url@ == "github.com/Yeachan-Heo/oh-my-codex"@,
    {
        "github.com/Yeachan-Heo/oh-my-codex"
    }

    /// Whether the game runs in penalty mode: exactly when the star was
    /// checked and not found.
    pub fn is_penalty_mode(&self) -> (b: bool)
        ensures
            b <==> self@ is NotStarred,
    {
        match self {
            SupportMode::NotStarred { .. } => true,
            _ => false,
        }
    }

    /// A colour laid over the sky; no mode uses one.
    pub fn scene_tint(&self) -> (tint: Option<(u8, u8, u8, u8)>)
        ensures
            tint is None,
    {
        None
    }

    pub fn status_heading(&self) -> (s: String)
        ensures
            s@ == status_heading_of(self@),
            self@ matches SupportModeView::Starred(l) ==> s@ == l + ": repository star detected"@,
            self@ matches SupportModeView::NotStarred(l) ==> s@ == l
                + ": repository star not detected"@,
            self@ is Unavailable ==> s@ == "GitHub star status unavailable"@,
    {
        match self {
            SupportMode::Starred { login } => {
                let mut s = login.clone();
                s.append(": repository star detected");
                s
            },
            SupportMode::NotStarred { login } => {
                let mut s = login.clone();
                s.append(": repository star not detected");
                s
            },
            SupportMode::Unavailable { .. } => "GitHub star status unavailable".to_owned(),
        }
    }

    pub fn status_detail(&self) -> (s: String)
        ensures
            s@ == status_detail_of(self@),
            self@ is Starred ==> s@ == "Supporter mode: normal obstacle pacing unlocked"@,
            self@ is NotStarred ==> s@
                == "You have not starred this repository, so this feature is unavailable until you star it."@,
            self@ matches SupportModeView::Unavailable(m) ==> s@ == "Verification unavailable: "@
                + m,
    {
        match self {
            SupportMode::Starred { .. } => "Supporter mode: normal obstacle pacing unlocked".to_owned(),
            SupportMode::NotStarred { .. } =>
                "You have not starred this repository, so this feature is unavailable until you star it.".to_owned(),
            SupportMode::Unavailable { message } => {
                let mut s = "Verification unavailable: ".to_owned();
                s.append(message.as_str());
                s
            },
        }
    }
}

// ---------------------------------------------------------------------------
// Deciding the mode
// ---------------------------------------------------------------------------

/// The mode forced by the `DINO_SUPPORT_MODE` setting.
pub open spec fn override_mode(mode: Seq<char>) -> SupportModeView {
    if mode == "starred"@ {
        SupportModeView::Starred("override"@)
    } else if mode == "unstarred"@ {
        SupportModeView::NotStarred("override"@)
    } else {
        SupportModeView::Unavailable("support override active"@)
    }
}

/// The login used once `gh auth status` succeeded: the reported one, or
/// `"gh-user"` when none is found.
pub open spec fn login_or_default(text: Seq<char>) -> Seq<char> {
    match first_login(lines(text)) {
        Some(l) => l,
        None => "gh-user"@,
    }
}

/// The mode given by the answer of the star query.
pub open spec fn star_mode(login: Seq<char>, response: Option<Seq<char>>) -> SupportModeView {
    match response {
        None => SupportModeView::Unavailable("failed to run gh api"@),
        Some(text) => match first_status(lines(text)) {
            Some(code) => if code == 204 {
                SupportModeView::Starred(login)
            } else if code == 404 {
                SupportModeView::NotStarred(login)
            } else {
                SupportModeView::Unavailable("unable to verify repo star status"@)
            },
            None => SupportModeView::Unavailable("unable to verify repo star status"@),
        },
    }
}

fn same_chars(a: &Vec<char>, b: &Vec<char>) -> (r: bool)
    ensures
        r == (a@ == b@),
{
    if a.len() != b.len() {
        return false;
    }
    let mut i: usize = 0;
    while i < a.len()
        invariant
            a.len() == b.len(),
            i <= a.len(),
            forall|j: int| 0 <= j < i ==> a@[j] == b@[j],
        decreases a.len() - i,
    {
        if a[i] != b[i] {
            return false;
        }
        i = i + 1;
    }
    assert(a@ =~= b@);
    true
}

impl SupportMode {
    /// The mode that the `DINO_SUPPORT_MODE` setting forces: `"starred"`,
    /// `"unstarred"`, or anything else for an unavailable check.
    pub fn from_override(mode: &str) -> (m: SupportMode)
        ensures
            m@ == override_mode(mode@),
            mode@ == "starred"@ ==> m@ == SupportModeView::Starred("override"@),
            mode@ == "unstarred"@ ==> m@ == SupportModeView::NotStarred("override"@),
            mode@ != "starred"@ && mode@ != "unstarred"@ ==> m@ == SupportModeView::Unavailable(
                "support override active"@,
            ),
    {
        proof {
            reveal_strlit("starred");
            reveal_strlit("unstarred");
            assert("starred"@.len() != "unstarred"@.len());
        }
        let v = chars_of(mode);
        let starred = chars_of("starred");
        let unstarred = chars_of("unstarred");
        if same_chars(&v, &starred) {
            SupportMode::Starred { login: "override".to_owned() }
        } else if same_chars(&v, &unstarred) {
            SupportMode::NotStarred { login: "override".to_owned() }
        } else {
            SupportMode::Unavailable { message: "support override active".to_owned() }
        }
    }

    /// The step after `gh auth status`: `None` when the command could not be
    /// started. Either the login to query the star with, or the final mode.
    pub fn after_auth_status(auth: Option<&CommandOutput>) -> (r: Result<String, SupportMode>)
        ensures
            match auth {
                None => r matches Err(m) && m@ == SupportModeView::Unavailable("gh CLI not found"@),
                Some(out) => if out.success {
                    r matches Ok(login) && login@ == login_or_default(out.text@) && (
                    first_login(lines(out.text@)) matches Some(l) ==> login@ == l) && (
                    first_login(lines(out.text@)) is None ==> login@ == "gh-user"@)
                } else {
                    r matches Err(m) && m@ == SupportModeView::Unavailable(
                        "gh login required to verify GitHub star"@,
                    )
                },
            },
    {
        match auth {
            None => Err(SupportMode::Unavailable { message: "gh CLI not found".to_owned() }),
            Some(out) => {
                if !out.success {
                    Err(
                        SupportMode::Unavailable {
                            message: "gh login required to verify GitHub star".to_owned(),
                        },
                    )
                } else {
                    match extract_login(out.text.as_str()) {
                        Some(login) => Ok(login),
                        None => Ok("gh-user".to_owned()),
                    }
                }
            },
        }
    }

    /// The mode given by the answer of the star query (`None` when the
    /// query could not be started): starred on status 204, not starred on
    /// 404, unavailable otherwise.
    pub fn from_star_response(login: String, response: Option<&str>) -> (m: SupportMode)
        ensures
            m@ == star_mode(
                login@,
                match response {
                    Some(t) => Some(t@),
                    None => None,
                },
            ),
            response is None ==> m@ == SupportModeView::Unavailable("failed to run gh api"@),
            response is Some && first_status(lines(response->0@)) == Some(204u16) ==> m@
                == SupportModeView::Starred(login@),
            response is Some && first_status(lines(response->0@)) == Some(404u16) ==> m@
                == SupportModeView::NotStarred(login@),
            response is Some && first_status(lines(response->0@)) != Some(204u16)
                && first_status(lines(response->0@)) != Some(404u16) ==> m@
                == SupportModeView::Unavailable("unable to verify repo star status"@),
    {
        match response {
            None => SupportMode::Unavailable { message: "failed to run gh api".to_owned() },
            Some(text) => match parse_star_status(text) {
                Some(204) => SupportMode::Starred { login },
                Some(404) => SupportMode::NotStarred { login },
                _ => SupportMode::Unavailable {
                    message: "unable to verify repo star status".to_owned(),
                },
            },
        }
    }
}

/// The star answer decides the mode by its first status code alone: 204
/// means starred, 404 means not starred, and any other code, or none,
/// leaves the check unavailable; a query that could not run is unavailable
/// too.
pub proof fn lemma_star_mode_by_status(login: Seq<char>, response: Option<Seq<char>>)
    ensures
        star_mode(login, response) is Starred <==> response is Some && first_status(
            lines(response->0),
        ) == Some(204u16),
        star_mode(login, response) is NotStarred <==> response is Some && first_status(
            lines(response->0),
        ) == Some(404u16),
        star_mode(login, response) is Starred ==> star_mode(login, response) == SupportModeView::Starred(login),
        star_mode(login, response) is NotStarred ==> star_mode(login, response) == SupportModeView::NotStarred(login),
        response is Some && star_mode(login, response) is Unavailable ==> star_mode(login, response)
            == SupportModeView::Unavailable("unable to verify repo star status"@),
        response is None ==> star_mode(login, response) == SupportModeView::Unavailable(
            "failed to run gh api"@,
        ),
{
}

/// The login on a line is the whole first word after the first `"account "`:
/// it is non-empty, holds no white space, only white space stands between
/// the marker and it, and it ends at white space or at the end of the line.
/// There is a login exactly when the marker occurs and something other than
/// white space follows it.
pub proof fn lemma_login_is_whole_word(line: Seq<char>)
    ensures
        login_in_line(line) is Some <==> find(line, account_marker()) is Some && exists|i: int|
            find(line, account_marker())->0 + 8 <= i < line.len() && !is_space(
                #[trigger] line[i],
            ),
        login_in_line(line) matches Some(w) ==> exists|a: int, b: int|
            #![trigger line.subrange(a, b)]
            {
                &&& find(line, account_marker())->0 + 8 <= a < b <= line.len()
                &&& forall|i: int|
                    find(line, account_marker())->0 + 8 <= i < a ==> is_space(#[trigger] line[i])
                &&& forall|i: int| a <= i < b ==> !is_space(#[trigger] line[i])
                &&& (b == line.len() || is_space(line[b]))
                &&& w == line.subrange(a, b)
            },
{
    lemma_find(line, account_marker());
    match find(line, account_marker()) {
        None => {},
        Some(k) => {
            let c = k + 8;
            assert(occurs_at(line, account_marker(), k as int));
            let tail = line.skip(c as int);
            lemma_first_word(tail);
            if split_ws(tail).len() == 0 {
                assert forall|i: int| c <= i < line.len() implies is_space(#[trigger] line[i]) by {
                    assert(tail[i - c] == line[i]);
                }
            } else {
                let (a, b) = choose|a: int, b: int|
                    {
                        &&& 0 <= a < b <= tail.len()
                        &&& forall|i: int| 0 <= i < a ==> is_space(#[trigger] tail[i])
                        &&& forall|i: int| a <= i < b ==> !is_space(#[trigger] tail[i])
                        &&& (b == tail.len() || is_space(tail[b]))
                        &&& split_ws(tail)[0] == #[trigger] tail.subrange(a, b)
                    };
                let la = c + a;
                let lb = c + b;
                assert(tail.subrange(a, b) =~= line.subrange(la, lb));
                assert(!is_space(line[la])) by {
                    assert(tail[a] == line[la]);
                }
                assert forall|i: int| c <= i < la implies is_space(#[trigger] line[i]) by {
                    assert(tail[i - c] == line[i]);
                }
                assert forall|i: int| la <= i < lb implies !is_space(#[trigger] line[i]) by {
                    assert(tail[i - c] == line[i]);
                }
                if lb < line.len() {
                    assert(tail[b] == line[lb]);
                }
                assert(login_in_line(line) == Some(line.subrange(la, lb)));
            }
        },
    }
}

/// The login found in a text is the login of its first line that has one.
pub proof fn lemma_first_login(ls: Seq<Seq<char>>)
    ensures
        first_login(ls) is None <==> forall|i: int|
            0 <= i < ls.len() ==> #[trigger] login_in_line(ls[i]) is None,
        first_login(ls) matches Some(w) ==> exists|i: int|
            0 <= i < ls.len() && #[trigger] login_in_line(ls[i]) == Some(w) && forall|j: int|
                0 <= j < i ==> #[trigger] login_in_line(ls[j]) is None,
    decreases ls.len(),
{
    if ls.len() > 0 {
        lemma_first_login(ls.drop_first());
        assert forall|i: int| 1 <= i < ls.len() implies ls[i] == #[trigger] ls.drop_first()[i
            - 1] by {}
        match login_in_line(ls[0]) {
            Some(w) => {
                assert(login_in_line(ls[0]) == Some(w));
            },
            None => {
                if first_login(ls.drop_first()) is None {
                    assert forall|i: int| 0 <= i < ls.len() implies #[trigger] login_in_line(
                        ls[i],
                    ) is None by {
                        if i > 0 {
                            assert(login_in_line(ls.drop_first()[i - 1]) is None);
                        }
                    }
                } else {
                    let w = first_login(ls.drop_first())->0;
                    let i = choose|i: int|
                        0 <= i < ls.drop_first().len() && #[trigger] login_in_line(ls.drop_first()[i])
                            == Some(w) && forall|j: int|
                            0 <= j < i ==> #[trigger] login_in_line(ls.drop_first()[j]) is None;
                    assert(login_in_line(ls[i + 1]) == Some(w));
                    assert forall|j: int| 0 <= j < i + 1 implies #[trigger] login_in_line(
                        ls[j],
                    ) is None by {
                        if j > 0 {
                            assert(login_in_line(ls.drop_first()[j - 1]) is None);
                        }
                    }
                }
            },
        }
    }
}

/// The status found in a text is the status of its first line that has one.
pub proof fn lemma_first_status(ls: Seq<Seq<char>>)
    ensures
        first_status(ls) is None <==> forall|i: int|
            0 <= i < ls.len() ==> #[trigger] status_in_line(ls[i]) is None,
        first_status(ls) matches Some(w) ==> exists|i: int|
            0 <= i < ls.len() && #[trigger] status_in_line(ls[i]) == Some(w) && forall|j: int|
                0 <= j < i ==> #[trigger] status_in_line(ls[j]) is None,
    decreases ls.len(),
{
    if ls.len() > 0 {
        lemma_first_status(ls.drop_first());
        assert forall|i: int| 1 <= i < ls.len() implies ls[i] == #[trigger] ls.drop_first()[i
            - 1] by {}
        match status_in_line(ls[0]) {
            Some(w) => {
                assert(status_in_line(ls[0]) == Some(w));
            },
            None => {
                if first_status(ls.drop_first()) is None {
                    assert forall|i: int| 0 <= i < ls.len() implies #[trigger] status_in_line(
                        ls[i],
                    ) is None by {
                        if i > 0 {
                            assert(status_in_line(ls.drop_first()[i - 1]) is None);
                        }
                    }
                } else {
                    let w = first_status(ls.drop_first())->0;
                    let i = choose|i: int|
                        0 <= i < ls.drop_first().len() && #[trigger] status_in_line(ls.drop_first()[i])
                            == Some(w) && forall|j: int|
                            0 <= j < i ==> #[trigger] status_in_line(ls.drop_first()[j]) is None;
                    assert(status_in_line(ls[i + 1]) == Some(w));
                    assert forall|j: int| 0 <= j < i + 1 implies #[trigger] status_in_line(
                        ls[j],
                    ) is None by {
                        if j > 0 {
                            assert(status_in_line(ls.drop_first()[j - 1]) is None);
                        }
                    }
                }
            },
        }
    }
}

} // verus!
