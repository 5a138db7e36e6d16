//! The decisions of the interactive terminal: where it connects, what a typed
//! line asks for, how a response is reported and which request it settles.

use vstd::prelude::*;
use crate::json::{json_value_of, parse_json, JsonValue};
use crate::message::RpcResponse;
use crate::table::Table;

verus! {

/// The character of decimal digit `d`.
pub open spec fn digit_char(d: nat) -> char {
    (48 + d) as char
}

/// The decimal numeral of `n`, without leading zeros.
pub open spec fn decimal(n: nat) -> Seq<char>
    decreases n,
{
    if n < 10 {
        seq![digit_char(n)]
    } else {
        decimal(n / 10).push(digit_char(n % 10))
    }
}

/// The text of decimal digit `d`.
fn digit_text(d: u16) -> (t: &'static str)
    requires
        d < 10,
    ensures
        t@ == seq![digit_char(d as nat)],
{
    match d {
        0 => {
            proof { reveal_strlit("0"); }
            "0"
        },
        1 => {
            proof { reveal_strlit("1"); }
            "1"
        },
        2 => {
            proof { reveal_strlit("2"); }
            "2"
        },
        3 => {
            proof { reveal_strlit("3"); }
            "3"
        },
        4 => {
            proof { reveal_strlit("4"); }
            "4"
        },
        5 => {
            proof { reveal_strlit("5"); }
            "5"
        },
        6 => {
            proof { reveal_strlit("6"); }
            "6"
        },
        7 => {
            proof { reveal_strlit("7"); }
            "7"
        },
        8 => {
            proof { reveal_strlit("8"); }
            "8"
        },
        _ => {
            proof { reveal_strlit("9"); }
            "9"
        },
    }
}

fn push_decimal(s: &mut String, n: u16)
    ensures
        final(s)@ == old(s)@ + decimal(n as nat),
    decreases n,
{
    if n >= 10 {
        push_decimal(s, n / 10);
    }
    s.append(digit_text(n % 10));
    proof {
        assert(old(s)@ + decimal(n as nat) =~= if n >= 10 {
            (old(s)@ + decimal((n / 10) as nat)).push(digit_char((n % 10) as nat))
        } else {
            old(s)@.push(digit_char(n as nat))
        });
    }
}

/// The WebSocket URL the terminal connects to: `url` when given, else
/// `ws://HOST:PORT`.
pub fn ws_url(host: &str, port: u16, url: Option<String>) -> (r: String)
    ensures
        r@ == match url {
            Some(u) => u@,
            None => "ws://"@ + host@ + ":"@ + decimal(port as nat),
        },
{
    match url {
        Some(u) => u,
        None => {
            let mut s = String::from_str("ws://");
            s.append(host);
            s.append(":");
            push_decimal(&mut s, port);
            s
        },
    }
}

/// Whether `c` is white space (Unicode's `White_Space` property), the
/// characters that trimming drops.
pub open spec fn is_space(c: char) -> bool {
    let u = c as u32;
    ||| 9 <= u <= 13
    ||| u == 32
    ||| u == 0x85
    ||| u == 0xa0
    ||| u == 0x1680
    ||| 0x2000 <= u <= 0x200a
    ||| u == 0x2028
    ||| u == 0x2029
    ||| u == 0x202f
    ||| u == 0x205f
    ||| u == 0x3000
}

fn space(c: char) -> (b: bool)
    ensures
        b == is_space(c),
{
    let u = c as u32;
    (9 <= u && u <= 13) || u == 32 || u == 0x85 || u == 0xa0 || u == 0x1680
        || (0x2000 <= u && u <= 0x200a) || u == 0x2028 || u == 0x2029 || u == 0x202f
        || u == 0x205f || u == 0x3000
}

/// `s` without its leading white space.
pub open spec fn trim_start(s: Seq<char>) -> Seq<char>
    decreases s.len(),
{
    if s.len() > 0 && is_space(s[0]) {
        trim_start(s.drop_first())
    } else {
        s
    }
}

/// `s` without its trailing white space.
pub open spec fn trim_end(s: Seq<char>) -> Seq<char>
    decreases s.len(),
{
    if s.len() > 0 && is_space(s.last()) {
        trim_end(s.drop_last())
    } else {
        s
    }
}

/// `s` without leading and trailing white space.
pub open spec fn trim(s: Seq<char>) -> Seq<char> {
    trim_end(trim_start(s))
}

/// `t` has its first space character at `k`.
pub open spec fn first_space_at(t: Seq<char>, k: int) -> bool {
    &&& 0 <= k < t.len()
    &&& t[k] == ' '
    &&& forall|m: int| 0 <= m < k ==> t[m] != ' '
}

/// What a line typed at the terminal asks for.
#[derive(Debug)]
pub enum Command {
    /// A blank line: nothing.
    Empty,
    /// `.exit` or `.quit`: leave.
    Exit,
    /// `.help`: print the usage.
    Help,
    /// Call `method`; `params` is the text after the first space, if any.
    Call { method: String, params: Option<String> },
}

/// Reads a line typed at the terminal. The line is trimmed first; a call is
/// split at its first space into the method name and the parameter text.
pub fn parse_command(line: &str) -> (c: Command)
    ensures
        ({
            let t = trim(line@);
            match c {
                Command::Empty => t.len() == 0,
                Command::Exit => t == ".exit"@ || t == ".quit"@,
                Command::Help => t == ".help"@,
                Command::Call { method, params } => {
                    &&& t.len() > 0 && t != ".exit"@ && t != ".quit"@ && t != ".help"@
                    &&& method@.len() > 0
                    &&& !method@.contains(' ')
                    &&& match params {
                        None => !t.contains(' ') && method@ == t,
                        Some(p) => exists|k: int| first_space_at(t, k) && method@ == t.take(k) && p@ == t.skip(k + 1),
                    }
                },
            }
        }),
{
    let ghost s = line@;
    let n = line.unicode_len();
    let mut i: usize = 0;
    proof { assert(s.subrange(0, n as int) =~= s); }
    while i < n && space(line.get_char(i))
        invariant
            s == line@,
            n == s.len(),
            i <= n,
            trim_start(s) == trim_start(s.subrange(i as int, n as int)),
        decreases n - i,
    {
        proof {
            assert(s.subrange(i as int, n as int).drop_first() =~= s.subrange(i + 1, n as int));
        }
        i = i + 1;
    }
    proof {
        if i == n {
            assert(s.subrange(i as int, n as int) =~= Seq::<char>::empty());
        }
    }
    let mut j: usize = n;
    while j > i && space(line.get_char(j - 1))
        invariant
            s == line@,
            n == s.len(),
            i <= j <= n,
            trim_start(s) == s.subrange(i as int, n as int),
            trim(s) == trim_end(s.subrange(i as int, j as int)),
        decreases j,
    {
        proof {
            assert(s.subrange(i as int, j as int).drop_last() =~= s.subrange(i as int, j - 1));
        }
        j = j - 1;
    }
    let ghost t = s.subrange(i as int, j as int);
    proof {
        if j == i {
            assert(t =~= Seq::<char>::empty());
        }
        assert(trim(s) == t);
    }
    if j == i {
        return Command::Empty;
    }
    let trimmed = String::from_str(line.substring_char(i, j));
    if trimmed == String::from_str(".exit") || trimmed == String::from_str(".quit") {
        return Command::Exit;
    }
    if trimmed == String::from_str(".help") {
        return Command::Help;
    }
    let mut k: usize = i;
    while k < j && line.get_char(k) != ' '
        invariant
            s == line@,
            n == s.len(),
            i <= k <= j <= n,
            t == s.subrange(i as int, j as int),
            forall|m: int| i <= m < k ==> s[m] != ' ',
        decreases j - k,
    {
        k = k + 1;
    }
    proof {
        assert(!is_space(s[i as int]));
        assert(t[0] == s[i as int]);
        assert(k > i);
    }
    let method = String::from_str(line.substring_char(i, k));
    if k == j {
        proof {
            assert(method@ =~= t);
            assert forall|m: int| 0 <= m < t.len() implies t[m] != ' ' by {
                assert(t[m] == s[i + m]);
            }
        }
        Command::Call { method, params: None }
    } else {
        let params = String::from_str(line.substring_char(k + 1, j));
        proof {
            let kk = (k - i) as int;
            assert(first_space_at(t, kk)) by {
                assert forall|m: int| 0 <= m < kk implies t[m] != ' ' by {
                    assert(t[m] == s[i + m]);
                }
            }
            assert(method@ =~= t.take(kk));
            assert(params@ =~= t.skip(kk + 1));
            assert forall|m: int| 0 <= m < method@.len() implies method@[m] != ' ' by {
                assert(method@[m] == s[i + m]);
            }
        }
        Command::Call { method, params: Some(params) }
    }
}

/// The parameters of a call typed with parameter text `text`: the JSON value
/// that the text holds, else the text itself as a JSON string. In particular
/// `true`, `false` and `null` give those JSON values, and an empty text gives
/// the empty string.
pub fn call_params(text: String) -> (v: JsonValue)
    ensures
        match json_value_of(text@) {
            Some(p) => v == p,
            None => v == JsonValue::String(text),
        },
        text@ == "true"@ ==> v == JsonValue::Bool(true),
        text@ == "false"@ ==> v == JsonValue::Bool(false),
        text@ == "null"@ ==> v == JsonValue::Null,
        text@.len() == 0 ==> (v matches JsonValue::String(s) && s@.len() == 0),
{
    match parse_json(text.as_str()) {
        Some(p) => p,
        None => JsonValue::String(text),
    }
}

/// How the terminal reports a response.
#[derive(Debug)]
pub enum Report {
    /// Request `id` failed with `error`.
    Failed { id: String, error: String },
    /// Request `id` returned `result`.
    Returned { id: String, result: JsonValue },
    /// Request `id` returned nothing.
    Empty { id: String },
    /// An error notification.
    NoticeError { error: String },
    /// Nothing to report.
    Nothing,
}

/// Decides how a response is reported: for a request, its error first, else
/// its result; a response without an id is reported only when it carries an
/// error.
pub fn classify_response(r: RpcResponse) -> (rep: Report)
    ensures
        match r.id {
            Some(id) => match r.error {
                Some(e) => rep == Report::Failed { id, error: e },
                None => match r.result {
                    Some(v) => rep == Report::Returned { id, result: v },
                    None => rep == Report::Empty { id },
                },
            },
            None => match r.error {
                Some(e) => rep == Report::NoticeError { error: e },
                None => rep is Nothing,
            },
        },
{
    match r.id {
        Some(id) => match r.error {
            Some(error) => Report::Failed { id, error },
            None => match r.result {
                Some(result) => Report::Returned { id, result },
                None => Report::Empty { id },
            },
        },
        None => match r.error {
            Some(error) => Report::NoticeError { error },
            None => Report::Nothing,
        },
    }
}

/// The requests sent and not answered yet, each with the signal that wakes
/// whoever waits for its answer. `S` is the type of a signal.
pub struct PendingRequests<S> {
    waiting: Table<String, S>,
}

impl<S> View for PendingRequests<S> {
    type V = Map<Seq<char>, S>;

    closed spec fn view(&self) -> Map<Seq<char>, S> {
        self.waiting.view()
    }
}

impl<S> PendingRequests<S> {
    #[verifier::type_invariant]
    closed spec fn well_formed(self) -> bool {
        self.waiting.wf()
    }

    /// No request pending.
    pub fn new() -> (p: Self)
        ensures
            p@ == Map::<Seq<char>, S>::empty(),
            p@.dom().finite(),
    {
        PendingRequests { waiting: Table::new() }
    }

    /// Number of pending requests.
    pub fn len(&self) -> (n: usize)
        ensures
            self@.dom().finite(),
            n == self@.dom().len(),
    {
        proof {
            use_type_invariant(self);
            self.waiting.lemma_view();
        }
        self.waiting.len()
    }

    /// Records that request `id` waits, to be woken through `signal`.
    pub fn expect(&mut self, id: String, signal: S)
        ensures
            final(self)@ == old(self)@.insert(id@, signal),
            old(self)@.dom().finite(),
            final(self)@.dom().finite(),
    {
        proof {
            use_type_invariant(&*self);
            self.waiting.lemma_view();
        }
        let mut waiting = Table::new();
        std::mem::swap(&mut waiting, &mut self.waiting);
        waiting.insert(id, signal);
        proof { waiting.lemma_view(); }
        self.waiting = waiting;
    }

    /// Request `id` is answered: its signal, if it was pending; it no longer is.
    pub fn settle(&mut self, id: &String) -> (signal: Option<S>)
        ensures
            final(self)@ == old(self)@.remove(id@),
            old(self)@.dom().finite(),
            final(self)@.dom().finite(),
            match signal {
                Some(s) => old(self)@.contains_key(id@) && s == old(self)@[id@],
                None => !old(self)@.contains_key(id@),
            },
    {
        proof {
            use_type_invariant(&*self);
            self.waiting.lemma_view();
        }
        let mut waiting = Table::new();
        std::mem::swap(&mut waiting, &mut self.waiting);
        let signal = waiting.remove(id);
        proof { waiting.lemma_view(); }
        self.waiting = waiting;
        signal
    }

    /// Forgets every pending request.
    pub fn clear(&mut self)
        ensures
            final(self)@ == Map::<Seq<char>, S>::empty(),
            final(self)@.dom().finite(),
    {
        self.waiting = Table::new();
    }
}

/// Settling a request gives back the signal that was recorded for it when it
/// was sent, and a request settled once is not pending any more.
pub proof fn law_settle_after_expect<S>(before: Map<Seq<char>, S>, id: Seq<char>, signal: S)
    ensures
        before.insert(id, signal).contains_key(id),
        before.insert(id, signal)[id] == signal,
        !before.insert(id, signal).remove(id).contains_key(id),
{
}

/// The number that a numeral written in decimal digits stands for.
pub open spec fn numeral_value(s: Seq<char>) -> int
    decreases s.len(),
{
    if s.len() == 0 {
        0
    } else {
        numeral_value(s.drop_last()) * 10 + ((s.last() as u32) as int - 48)
    }
}

/// The port text in a URL is the usual decimal numeral of the port: it is
/// made of the digits '0' to '9' only, has no leading zero, and read back
/// digit by digit it gives the number written.
pub proof fn law_decimal_reads_back(n: nat)
    ensures
        numeral_value(decimal(n)) == n,
        decimal(n).len() >= 1,
        forall|i: int| 0 <= i < decimal(n).len() ==> '0' <= #[trigger] decimal(n)[i] <= '9',
        decimal(n).len() > 1 ==> decimal(n)[0] != '0',
        n >= 10 ==> decimal(n).len() > 1,
    decreases n,
{
    if n >= 10 {
        law_decimal_reads_back(n / 10);
        let d = decimal(n);
        let h = decimal(n / 10);
        assert(d.drop_last() =~= h);
        assert(d.last() == digit_char(n % 10));
        assert((digit_char(n % 10) as u32) as int - 48 == n % 10);
        assert(numeral_value(d) == numeral_value(h) * 10 + (n % 10) as int);
        assert(n == (n / 10) * 10 + n % 10);
        assert forall|i: int| 0 <= i < d.len() implies '0' <= #[trigger] d[i] <= '9' by {
            if i < h.len() {
                assert(d[i] == h[i]);
            }
        }
        assert(d[0] == h[0]);
        if n / 10 < 10 {
            assert(h == seq![digit_char(n / 10)]);
            assert((digit_char(n / 10) as u32) as int - 48 == n / 10);
        }
    } else {
        assert((digit_char(n) as u32) as int - 48 == n);
        assert(numeral_value(decimal(n)) == numeral_value(decimal(n).drop_last()) * 10 + n);
        assert(decimal(n).drop_last() =~= Seq::<char>::empty());
    }
}

/// Trimming treats as white space, among the ASCII characters, exactly tab
/// (9), line feed (10), vertical tab (11), form feed (12), carriage return
/// (13) and the space (32); no
/// printable ASCII character ('!' to '~') is white space; and the other white
/// space characters all lie beyond U+007F.
pub proof fn law_ascii_white_space()
    ensures
        forall|c: char| (c as u32) < 128 ==> (#[trigger] is_space(c) <==> ((c as u32) == 32
            || (c as u32) == 9 || (c as u32) == 10 || (c as u32) == 11 || (c as u32) == 12
            || (c as u32) == 13)),
        forall|c: char| 33 <= (c as u32) <= 126 ==> !#[trigger] is_space(c),
        forall|c: char| #[trigger] is_space(c) && (c as u32) >= 128 ==> (c as u32) >= 0x85,
{
}

/// Trimming cuts a run of white space off each end and nothing else: the
/// trimmed text is a stretch of the line, everything before and after it is
/// white space, and it neither starts nor ends with white space.
pub proof fn law_trim_cuts_white_space(s: Seq<char>)
    ensures
        exists|i: int, j: int| {
            &&& 0 <= i <= j <= s.len()
            &&& trim(s) == s.subrange(i, j)
            &&& forall|k: int| 0 <= k < i ==> is_space(#[trigger] s[k])
            &&& forall|k: int| j <= k < s.len() ==> is_space(#[trigger] s[k])
            &&& i < j ==> !is_space(s[i]) && !is_space(s[j - 1])
        },
{
    let i = lemma_trim_start(s);
    let t = s.subrange(i, s.len() as int);
    let j = lemma_trim_end(t);
    assert(trim(s) == s.subrange(i, i + j));
    assert forall|k: int| i + j <= k < s.len() implies is_space(#[trigger] s[k]) by {
        assert(s[k] == t[k - i]);
    }
    if j > 0 {
        assert(s[i] == t[0]);
        assert(s[i + j - 1] == t[j - 1]);
    }
    assert(s.subrange(i, i + j) =~= t.subrange(0, j));
}

proof fn lemma_trim_start(s: Seq<char>) -> (i: int)
    ensures
        0 <= i <= s.len(),
        trim_start(s) == s.subrange(i, s.len() as int),
        forall|k: int| 0 <= k < i ==> is_space(#[trigger] s[k]),
        i < s.len() ==> !is_space(s[i]),
    decreases s.len(),
{
    if s.len() > 0 && is_space(s[0]) {
        let r = lemma_trim_start(s.drop_first());
        assert forall|k: int| 0 <= k < r + 1 implies is_space(#[trigger] s[k]) by {
            if k > 0 {
                assert(s[k] == s.drop_first()[k - 1]);
            }
        }
        assert(s.drop_first().subrange(r, s.drop_first().len() as int) =~= s.subrange(r + 1, s.len() as int));
        if r + 1 < s.len() {
            assert(s[r + 1] == s.drop_first()[r]);
        }
        r + 1
    } else {
        assert(s.subrange(0, s.len() as int) =~= s);
        0
    }
}

proof fn lemma_trim_end(s: Seq<char>) -> (j: int)
    ensures
        0 <= j <= s.len(),
        trim_end(s) == s.subrange(0, j),
        forall|k: int| j <= k < s.len() ==> is_space(#[trigger] s[k]),
        j > 0 ==> !is_space(s[j - 1]),
        trim_end(s).len() == j,
    decreases s.len(),
{
    if s.len() > 0 && is_space(s.last()) {
        let r = lemma_trim_end(s.drop_last());
        assert(s.drop_last().subrange(0, r) =~= s.subrange(0, r));
        assert forall|k: int| r <= k < s.len() implies is_space(#[trigger] s[k]) by {
            if k < s.len() - 1 {
                assert(s[k] == s.drop_last()[k]);
            }
        }
        if r > 0 {
            assert(s[r - 1] == s.drop_last()[r - 1]);
        }
        r
    } else {
        assert(s.subrange(0, s.len() as int) =~= s);
        s.len() as int
    }
}

} // verus!
