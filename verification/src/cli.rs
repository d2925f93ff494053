//! The command language of the interactive bus tool: decimal numbers,
//! decider policy names, and the commands typed at its prompt.

use vstd::prelude::*;

use crate::bus::DeciderPolicy;
use crate::text::append_str;

verus! {

/// A character with the Unicode White_Space property, as
/// `char::is_whitespace` decides.
pub open spec fn is_whitespace(c: char) -> bool {
    ||| ('\t' <= c && c <= '\r')
    ||| c == ' '
    ||| c == '\u{85}'
    ||| c == '\u{a0}'
    ||| c == '\u{1680}'
    ||| ('\u{2000}' <= c && c <= '\u{200a}')
    ||| c == '\u{2028}'
    ||| c == '\u{2029}'
    ||| c == '\u{202f}'
    ||| c == '\u{205f}'
    ||| c == '\u{3000}'
}

/// The text without its leading whitespace.
pub open spec fn trim_start(s: Seq<char>) -> Seq<char>
    decreases s.len(),
{
    if s.len() > 0 && is_whitespace(s[0]) {
        trim_start(s.drop_first())
    } else {
        s
    }
}

/// The text without its trailing whitespace.
pub open spec fn trim_end(s: Seq<char>) -> Seq<char>
    decreases s.len(),
{
    if s.len() > 0 && is_whitespace(s.last()) {
        trim_end(s.drop_last())
    } else {
        s
    }
}

/// The text with leading and trailing whitespace removed, as `str::trim`
/// does.
pub open spec fn trimmed(s: Seq<char>) -> Seq<char> {
    trim_end(trim_start(s))
}

/// Calls `str::trim`. Claimed: the result is `trimmed` of the argument,
/// whitespace being what `char::is_whitespace` accepts.
#[verifier::external_body]
fn trim_text(s: &str) -> (r: &str)
    ensures
        r@ == trimmed(s@),
{
    s.trim()
}

/// The length of the leading run of non-whitespace characters.
pub open spec fn word_len(s: Seq<char>) -> nat
    decreases s.len(),
{
    if s.len() == 0 || is_whitespace(s[0]) {
        0
    } else {
        1 + word_len(s.drop_first())
    }
}

/// The words of a text, as `str::split_whitespace` gives them: the
/// non-empty runs of non-whitespace characters, in order.
pub open spec fn words_of(s: Seq<char>) -> Seq<Seq<char>>
    decreases s.len(),
{
    if s.len() == 0 {
        Seq::empty()
    } else if is_whitespace(s[0]) {
        words_of(s.drop_first())
    } else {
        let n = word_len(s);
        if n >= s.len() {
            seq![s]
        } else {
            seq![s.take(n as int)] + words_of(s.skip(n as int))
        }
    }
}

/// Calls `str::split_whitespace`. Claimed: the words, in order, are
/// `words_of` of the argument.
#[verifier::external_body]
fn whitespace_words(s: &str) -> (r: Vec<String>)
    ensures
        r@.map_values(|w: String| w@) == words_of(s@),
{
    s.split_whitespace().map(|w| w.to_string()).collect()
}

/// The text in upper case, as `str::to_uppercase` gives it.
pub uninterp spec fn upper_text(s: Seq<char>) -> Seq<char>;

/// Calls `str::to_uppercase`. Claimed: the result is `upper_text` of the
/// argument.
#[verifier::external_body]
fn to_upper(s: &str) -> (r: String)
    ensures
        r@ == upper_text(s@),
{
    s.to_uppercase()
}

/// Every character is an ASCII digit, and there is at least one.
pub open spec fn all_digits(s: Seq<char>) -> bool {
    s.len() > 0 && forall|i: int| 0 <= i < s.len() ==> '0' <= #[trigger] s[i] <= '9'
}

/// The number the decimal digits of `s` spell.
pub open spec fn digits_value(s: Seq<char>) -> nat
    decreases s.len(),
{
    if s.len() == 0 {
        0
    } else {
        digits_value(s.drop_last()) * 10 + ((s.last() as u32 - '0' as u32) as nat)
    }
}

/// The integer a text spells: an optional `+` or `-`, then digits.
pub open spec fn parsed_int(s: Seq<char>) -> Option<int> {
    if s.len() > 0 && s[0] == '-' && all_digits(s.drop_first()) {
        Some(-(digits_value(s.drop_first()) as int))
    } else if s.len() > 0 && s[0] == '+' && all_digits(s.drop_first()) {
        Some(digits_value(s.drop_first()) as int)
    } else if all_digits(s) {
        Some(digits_value(s) as int)
    } else {
        None
    }
}

/// The integer a text spells, if it lies in `[min, max]`.
pub open spec fn parsed_in_range(s: Seq<char>, min: int, max: int) -> Option<int> {
    match parsed_int(s) {
        Some(v) => if min <= v <= max {
            Some(v)
        } else {
            None
        },
        None => None,
    }
}

proof fn lemma_digits_value_grows(s: Seq<char>, k: int)
    requires
        0 <= k <= s.len(),
    ensures
        digits_value(s.take(k)) <= digits_value(s),
    decreases s.len() - k,
{
    if k < s.len() {
        lemma_digits_value_grows(s, k + 1);
        assert(s.take(k + 1).drop_last() =~= s.take(k));
    } else {
        assert(s.take(k) =~= s);
    }
}

/// A text with a sign is its sign and the digits after it; a text without
/// one is all digits.
proof fn lemma_parsed_shape(s: Seq<char>)
    requires
        s.len() > 0,
    ensures
        ({
            let start: int = if s[0] == '-' || s[0] == '+' { 1 } else { 0 };
            let digits = s.skip(start);
            parsed_int(s) == if all_digits(digits) {
                Some(if s[0] == '-' { -(digits_value(digits) as int) } else { digits_value(digits) as int })
            } else {
                None::<int>
            }
        }),
{
    if s[0] == '-' || s[0] == '+' {
        assert(s.skip(1) =~= s.drop_first());
        assert(!all_digits(s)) by {
            assert(!('0' <= s[0] <= '9'));
        }
    } else {
        assert(s.skip(0) =~= s);
        if all_digits(s) {
        }
    }
}

/// The integer a text spells, if it lies in `[min, max]`, a range within
/// the 64-bit integers.
fn parse_integer(s: &str, min: i128, max: i128) -> (r: Option<i128>)
    requires
        i64::MIN <= min <= 0 <= max <= i64::MAX,
    ensures
        match r {
            Some(v) => parsed_in_range(s@, min as int, max as int) == Some(v as int),
            None => parsed_in_range(s@, min as int, max as int) is None,
        },
{
    let n = s.unicode_len();
    if n == 0 {
        return None;
    }
    let first = s.get_char(0);
    let negative = first == '-';
    let start: usize = if first == '-' || first == '+' {
        1
    } else {
        0
    };
    let ghost digits = s@.skip(start as int);
    proof {
        lemma_parsed_shape(s@);
    }
    if start == n {
        assert(digits.len() == 0);
        return None;
    }
    let bound: i128 = if negative {
        -min
    } else {
        max
    };
    let mut value: i128 = 0;
    let mut i: usize = start;
    assert(digits.take(0) =~= Seq::<char>::empty());
    while i < n
        invariant
            n == s@.len(),
            start <= i <= n,
            start < n,
            digits == s@.skip(start as int),
            digits.len() == n - start,
            0 <= bound <= i64::MAX + 1,
            forall|k: int| 0 <= k < i - start ==> '0' <= #[trigger] digits[k] <= '9',
            value == digits_value(digits.take(i - start)),
            value <= bound,
            negative == (s@[0] == '-'),
            bound == if negative { -min } else { max as int },
            i64::MIN <= min <= 0 <= max <= i64::MAX,
            parsed_int(s@) == if all_digits(digits) {
                Some(if s@[0] == '-' { -(digits_value(digits) as int) } else { digits_value(digits) as int })
            } else {
                None::<int>
            },
        decreases n - i,
    {
        let c = s.get_char(i);
        assert(digits[i - start] == c);
        if !('0' <= c && c <= '9') {
            assert(!all_digits(digits));
            return None;
        }
        let d = (c as u32 - '0' as u32) as i128;
        proof {
            assert(digits.take(i - start + 1).drop_last() =~= digits.take(i - start));
            assert(digits.take(i - start + 1).last() == c);
        }
        let next = value * 10 + d;
        if next > bound {
            proof {
                if all_digits(digits) {
                    lemma_digits_value_grows(digits, i - start + 1);
                }
            }
            return None;
        }
        value = next;
        i += 1;
    }
    proof {
        assert(digits.take(n - start) =~= digits);
        assert(all_digits(digits));
    }
    if negative {
        Some(-value)
    } else {
        Some(value)
    }
}

/// Parse a 64-bit signed integer as `i64::from_str` does.
pub fn parse_i64(s: &str) -> (r: Option<i64>)
    ensures
        match r {
            Some(v) => parsed_in_range(s@, i64::MIN as int, i64::MAX as int) == Some(v as int),
            None => parsed_in_range(s@, i64::MIN as int, i64::MAX as int) is None,
        },
{
    match parse_integer(s, i64::MIN as i128, i64::MAX as i128) {
        Some(v) => Some(v as i64),
        None => None,
    }
}

/// Parse a 16-bit signed integer as `i16::from_str` does.
pub fn parse_i16(s: &str) -> (r: Option<i16>)
    ensures
        match r {
            Some(v) => parsed_in_range(s@, i16::MIN as int, i16::MAX as int) == Some(v as int),
            None => parsed_in_range(s@, i16::MIN as int, i16::MAX as int) is None,
        },
{
    match parse_integer(s, i16::MIN as i128, i16::MAX as i128) {
        Some(v) => Some(v as i16),
        None => None,
    }
}

/// The decider policy a name selects, compared in upper case: the full
/// name or its short form.
pub open spec fn decider_policy_named(upper: Seq<char>) -> Option<DeciderPolicy> {
    if upper == "OFF_BY_DEFAULT"@ || upper == "OFF"@ {
        Some(DeciderPolicy::OffByDefault)
    } else if upper == "ON_BY_DEFAULT"@ || upper == "ON"@ {
        Some(DeciderPolicy::OnByDefault)
    } else if upper == "FIRST_BOOLEAN_WINS"@ || upper == "FIRST"@ {
        Some(DeciderPolicy::FirstBooleanWins)
    } else {
        None
    }
}

fn same(a: &str, b: &str) -> (r: bool)
    ensures
        r == (a@ == b@),
{
    let n = a.unicode_len();
    if n != b.unicode_len() {
        return false;
    }
    let mut i: usize = 0;
    while i < n
        invariant
            n == a@.len(),
            a@.len() == b@.len(),
            i <= n,
            forall|k: int| 0 <= k < i ==> a@[k] == b@[k],
        decreases n - i,
    {
        if a.get_char(i) != b.get_char(i) {
            return false;
        }
        i += 1;
    }
    assert(a@ =~= b@);
    true
}

/// The decider policy a command names; any other name is refused with the
/// list of valid ones.
pub fn parse_decider_policy(policy: &str) -> (r: Result<DeciderPolicy, String>)
    ensures
        match decider_policy_named(upper_text(policy@)) {
            Some(p) => r == Ok::<DeciderPolicy, String>(p),
            None => r matches Err(m) && m@ == "Invalid decider policy: "@ + policy@
                + ". Valid options: OFF_BY_DEFAULT, ON_BY_DEFAULT, FIRST_BOOLEAN_WINS"@,
        },
{
    let upper = to_upper(policy);
    let u = upper.as_str();
    if same(u, "OFF_BY_DEFAULT") || same(u, "OFF") {
        Ok(DeciderPolicy::OffByDefault)
    } else if same(u, "ON_BY_DEFAULT") || same(u, "ON") {
        Ok(DeciderPolicy::OnByDefault)
    } else if same(u, "FIRST_BOOLEAN_WINS") || same(u, "FIRST") {
        Ok(DeciderPolicy::FirstBooleanWins)
    } else {
        let mut m = String::new();
        append_str(&mut m, "Invalid decider policy: ");
        append_str(&mut m, policy);
        append_str(&mut m, ". Valid options: OFF_BY_DEFAULT, ON_BY_DEFAULT, FIRST_BOOLEAN_WINS");
        Err(m)
    }
}

/// The first position of a space in `s`, if any.
pub open spec fn first_space(s: Seq<char>) -> Option<int> {
    if exists|i: int| 0 <= i < s.len() && #[trigger] s[i] == ' ' {
        Some(choose|i: int| 0 <= i < s.len() && #[trigger] s[i] == ' ' && forall|j: int| 0 <= j < i ==> s[j] != ' ')
    } else {
        None
    }
}

/// A command typed at the prompt, as plain values.
pub enum ReplView {
    Empty,
    Quit,
    Help,
    SetId(Seq<char>),
    Intention(Seq<char>),
    DeciderPolicy(Seq<char>),
    VoterPolicy(Seq<char>),
    Poll { start: i64, limit: i16 },
    Tail { n: i16, follow: bool, errors: Seq<Seq<char>> },
    Usage(Seq<Seq<char>>),
    Unknown(Seq<char>),
}

/// What the `tail` arguments select: the number of entries (10 unless a
/// number is given; the last one counts), whether to follow, and an error
/// pair for each argument that is neither.
pub open spec fn tail_arguments(args: Seq<Seq<char>>) -> (i16, bool, Seq<Seq<char>>)
    decreases args.len(),
{
    if args.len() == 0 {
        (10, false, Seq::empty())
    } else {
        let (n, follow, errors) = tail_arguments(args.drop_last());
        let a = args.last();
        if a == "-f"@ {
            (n, true, errors)
        } else {
            match parsed_in_range(a, i16::MIN as int, i16::MAX as int) {
                Some(v) => (v as i16, follow, errors),
                None => (n, follow, errors + seq!["Error: invalid argument '"@ + a + "'"@, "Usage: tail [-f] [n]"@]),
            }
        }
    }
}

/// What a line typed at the prompt asks for. The line is trimmed; its
/// command is the text before the first space, its argument the rest.
pub open spec fn repl_command_of(line: Seq<char>) -> ReplView {
    let t = trimmed(line);
    if t.len() == 0 {
        ReplView::Empty
    } else {
        match first_space(t) {
            Some(i) => command_of(t.take(i), Some(t.skip(i + 1))),
            None => command_of(t, None),
        }
    }
}

/// What `poll` with an optional argument asks for: two words, a start
/// position and a limit.
pub open spec fn poll_of(arg: Option<Seq<char>>) -> ReplView {
    let usage = ReplView::Usage(
        seq!["Error: poll requires both start and limit parameters"@, "Usage: poll <start> <limit>"@],
    );
    match arg {
        None => usage,
        Some(a) => {
            let words = words_of(a);
            if words.len() < 2 {
                usage
            } else {
                match parsed_in_range(words[0], i64::MIN as int, i64::MAX as int) {
                    None => ReplView::Usage(seq!["Error: invalid start position '"@ + words[0] + "'"@]),
                    Some(start) => match parsed_in_range(words[1], i16::MIN as int, i16::MAX as int) {
                        None => ReplView::Usage(seq!["Error: invalid limit '"@ + words[1] + "'"@]),
                        Some(limit) => ReplView::Poll { start: start as i64, limit: limit as i16 },
                    },
                }
            }
        },
    }
}

/// What a command with an optional argument asks for.
pub open spec fn command_of(command: Seq<char>, arg: Option<Seq<char>>) -> ReplView {
    if command == "quit"@ || command == "exit"@ {
        ReplView::Quit
    } else if command == "help"@ {
        ReplView::Help
    } else if command == "set-id"@ {
        match arg {
            Some(a) => ReplView::SetId(a),
            None => ReplView::Usage(seq!["Error: set-id requires an ID"@, "Usage: set-id <id>"@]),
        }
    } else if command == "intention"@ {
        match arg {
            Some(a) => ReplView::Intention(a),
            None => ReplView::Usage(seq!["Error: intention requires a text string"@, "Usage: intention <text>"@]),
        }
    } else if command == "decider-policy"@ {
        match arg {
            Some(a) => ReplView::DeciderPolicy(a),
            None => ReplView::Usage(
                seq![
                    "Error: decider-policy requires a policy type"@,
                    "Usage: decider-policy <policy>"@,
                    "Valid policies: OFF_BY_DEFAULT, ON_BY_DEFAULT, FIRST_BOOLEAN_WINS"@,
                ],
            ),
        }
    } else if command == "voter-policy"@ {
        match arg {
            Some(a) => ReplView::VoterPolicy(a),
            None => ReplView::Usage(
                seq!["Error: voter-policy requires a prompt override text"@, "Usage: voter-policy <text>"@],
            ),
        }
    } else if command == "poll"@ {
        poll_of(arg)
    } else if command == "tail"@ {
        let args = match arg {
            Some(a) => words_of(a),
            None => Seq::empty(),
        };
        let (n, follow, errors) = tail_arguments(args);
        ReplView::Tail { n, follow, errors }
    } else {
        ReplView::Unknown(command)
    }
}

/// A command typed at the prompt.
#[derive(Debug, PartialEq, Eq)]
pub enum ReplCommand {
    /// A blank line: nothing to do.
    Empty,
    /// Leave the prompt.
    Quit,
    /// Show the command list.
    Help,
    /// Change the current bus id.
    SetId(String),
    /// Append an intention.
    Intention(String),
    /// Append a decider policy, given by name.
    DeciderPolicy(String),
    /// Append a voter policy prompt override.
    VoterPolicy(String),
    /// Poll up to `limit` entries from `start`.
    Poll { start: i64, limit: i16 },
    /// Show the last `n` entries (and follow the bus), after printing the
    /// lines in `errors`.
    Tail { n: i16, follow: bool, errors: Vec<String> },
    /// Print these lines: the command was incomplete or malformed.
    Usage(Vec<String>),
    /// An unknown command.
    Unknown(String),
}

/// The views of a list of strings.
pub open spec fn line_views(v: Seq<String>) -> Seq<Seq<char>> {
    v.map_values(|s: String| s@)
}

/// The view of a command.
pub open spec fn command_view(c: ReplCommand) -> ReplView {
    match c {
        ReplCommand::Empty => ReplView::Empty,
        ReplCommand::Quit => ReplView::Quit,
        ReplCommand::Help => ReplView::Help,
        ReplCommand::SetId(s) => ReplView::SetId(s@),
        ReplCommand::Intention(s) => ReplView::Intention(s@),
        ReplCommand::DeciderPolicy(s) => ReplView::DeciderPolicy(s@),
        ReplCommand::VoterPolicy(s) => ReplView::VoterPolicy(s@),
        ReplCommand::Poll { start, limit } => ReplView::Poll { start, limit },
        ReplCommand::Tail { n, follow, errors } => ReplView::Tail { n, follow, errors: line_views(errors@) },
        ReplCommand::Usage(lines) => ReplView::Usage(line_views(lines@)),
        ReplCommand::Unknown(s) => ReplView::Unknown(s@),
    }
}

fn owned(s: &str) -> (r: String)
    ensures
        r@ == s@,
{
    let mut r = String::new();
    append_str(&mut r, s);
    r
}

fn lines2(a: &str, b: &str) -> (r: Vec<String>)
    ensures
        line_views(r@) == seq![a@, b@],
{
    let mut v: Vec<String> = Vec::new();
    v.push(owned(a));
    v.push(owned(b));
    assert(line_views(v@) =~= seq![a@, b@]);
    v
}

fn quoted_line(prefix: &str, word: &str) -> (r: String)
    ensures
        r@ == prefix@ + word@ + "'"@,
{
    let mut r = String::new();
    append_str(&mut r, prefix);
    append_str(&mut r, word);
    append_str(&mut r, "'");
    r
}

fn find_space(t: &str) -> (r: Option<usize>)
    ensures
        match r {
            Some(i) => first_space(t@) == Some(i as int) && i < t@.len(),
            None => first_space(t@) is None,
        },
{
    let n = t.unicode_len();
    let mut i: usize = 0;
    while i < n
        invariant
            n == t@.len(),
            i <= n,
            forall|j: int| 0 <= j < i ==> t@[j] != ' ',
        decreases n - i,
    {
        if t.get_char(i) == ' ' {
            assert(t@[i as int] == ' ');
            let ghost c = choose|k: int| 0 <= k < t@.len() && #[trigger] t@[k] == ' ' && forall|j: int| 0 <= j < k ==> t@[j] != ' ';
            assert(0 <= c < t@.len() && t@[c] == ' ' && forall|j: int| 0 <= j < c ==> t@[j] != ' ');
            assert(c == i) by {
                if c < i {
                    assert(t@[c] != ' ');
                }
                if c > i {
                    assert(t@[i as int] != ' ');
                }
            }
            return Some(i);
        }
        i += 1;
    }
    None
}

fn tail_command(args: &Vec<String>) -> (r: ReplCommand)
    ensures
        ({
            let (n, follow, errors) = tail_arguments(line_views(args@));
            command_view(r) == (ReplView::Tail { n, follow, errors })
        }),
{
    let mut n: i16 = 10;
    let mut follow = false;
    let mut errors: Vec<String> = Vec::new();
    let mut i: usize = 0;
    while i < args.len()
        invariant
            i <= args@.len(),
            tail_arguments(line_views(args@.subrange(0, i as int))) == (n, follow, line_views(errors@)),
        decreases args@.len() - i,
    {
        let a = args[i].as_str();
        proof {
            let prefix = line_views(args@.subrange(0, i + 1));
            assert(prefix.drop_last() =~= line_views(args@.subrange(0, i as int)));
            assert(prefix.last() == a@);
        }
        if same(a, "-f") {
            follow = true;
        } else {
            match parse_i16(a) {
                Some(v) => {
                    n = v;
                },
                None => {
                    let ghost before = line_views(errors@);
                    errors.push(quoted_line("Error: invalid argument '", a));
                    errors.push(owned("Usage: tail [-f] [n]"));
                    assert(line_views(errors@) =~= before + seq![
                        "Error: invalid argument '"@ + a@ + "'"@,
                        "Usage: tail [-f] [n]"@,
                    ]);
                },
            }
        }
        i += 1;
    }
    assert(args@.subrange(0, args@.len() as int) =~= args@);
    ReplCommand::Tail { n, follow, errors }
}

/// What a line typed at the prompt asks for.
#[verifier::rlimit(60)]
pub fn parse_repl_line(line: &str) -> (r: ReplCommand)
    ensures
        command_view(r) == repl_command_of(line@),
{
    let t = trim_text(line);
    let n = t.unicode_len();
    if n == 0 {
        return ReplCommand::Empty;
    }
    let (command, arg): (&str, Option<&str>) = match find_space(t) {
        Some(i) => (t.substring_char(0, i), Some(t.substring_char(i + 1, n))),
        None => (t, None),
    };
    proof {
        match first_space(t@) {
            Some(i) => {
                assert(command@ =~= t@.take(i));
                assert(arg.unwrap()@ =~= t@.skip(i + 1));
            },
            None => {},
        }
    }
    parse_command(command, arg)
}

fn poll_command(arg: Option<&str>) -> (r: ReplCommand)
    ensures
        command_view(r) == poll_of(
            match arg {
                Some(a) => Some(a@),
                None => None,
            },
        ),
{
    match arg {
        None => ReplCommand::Usage(
            lines2("Error: poll requires both start and limit parameters", "Usage: poll <start> <limit>"),
        ),
        Some(a) => {
            let words = whitespace_words(a);
            proof {
                assert(words@.map_values(|w: String| w@) =~= line_views(words@));
            }
            if words.len() < 2 {
                ReplCommand::Usage(
                    lines2("Error: poll requires both start and limit parameters", "Usage: poll <start> <limit>"),
                )
            } else {
                assert(words_of(a@)[0] == words@[0]@);
                assert(words_of(a@)[1] == words@[1]@);
                match parse_i64(words[0].as_str()) {
                    None => {
                        let mut v: Vec<String> = Vec::new();
                        v.push(quoted_line("Error: invalid start position '", words[0].as_str()));
                        assert(line_views(v@) =~= seq!["Error: invalid start position '"@ + words@[0]@ + "'"@]);
                        ReplCommand::Usage(v)
                    },
                    Some(start) => match parse_i16(words[1].as_str()) {
                        None => {
                            let mut v: Vec<String> = Vec::new();
                            v.push(quoted_line("Error: invalid limit '", words[1].as_str()));
                            assert(line_views(v@) =~= seq!["Error: invalid limit '"@ + words@[1]@ + "'"@]);
                            ReplCommand::Usage(v)
                        },
                        Some(limit) => ReplCommand::Poll { start, limit },
                    },
                }
            }
        },
    }
}

/// What a command with an optional argument asks for.
#[verifier::rlimit(60)]
fn parse_command(command: &str, arg: Option<&str>) -> (r: ReplCommand)
    ensures
        command_view(r) == command_of(
            command@,
            match arg {
                Some(a) => Some(a@),
                None => None,
            },
        ),
{
    proof {
        reveal_strlit("quit");
        reveal_strlit("exit");
        reveal_strlit("help");
        reveal_strlit("set-id");
        reveal_strlit("intention");
        reveal_strlit("decider-policy");
        reveal_strlit("voter-policy");
        reveal_strlit("poll");
        reveal_strlit("tail");
    }
    if same(command, "quit") || same(command, "exit") {
        ReplCommand::Quit
    } else if same(command, "help") {
        ReplCommand::Help
    } else if same(command, "set-id") {
        match arg {
            Some(a) => ReplCommand::SetId(owned(a)),
            None => ReplCommand::Usage(lines2("Error: set-id requires an ID", "Usage: set-id <id>")),
        }
    } else if same(command, "intention") {
        match arg {
            Some(a) => ReplCommand::Intention(owned(a)),
            None => ReplCommand::Usage(lines2("Error: intention requires a text string", "Usage: intention <text>")),
        }
    } else if same(command, "decider-policy") {
        match arg {
            Some(a) => ReplCommand::DeciderPolicy(owned(a)),
            None => {
                let mut v = lines2("Error: decider-policy requires a policy type", "Usage: decider-policy <policy>");
                let ghost before = line_views(v@);
                v.push(owned("Valid policies: OFF_BY_DEFAULT, ON_BY_DEFAULT, FIRST_BOOLEAN_WINS"));
                assert(line_views(v@) =~= before.push("Valid policies: OFF_BY_DEFAULT, ON_BY_DEFAULT, FIRST_BOOLEAN_WINS"@));
                assert(line_views(v@) =~= seq![
                    "Error: decider-policy requires a policy type"@,
                    "Usage: decider-policy <policy>"@,
                    "Valid policies: OFF_BY_DEFAULT, ON_BY_DEFAULT, FIRST_BOOLEAN_WINS"@,
                ]);
                ReplCommand::Usage(v)
            },
        }
    } else if same(command, "voter-policy") {
        match arg {
            Some(a) => ReplCommand::VoterPolicy(owned(a)),
            None => ReplCommand::Usage(
                lines2("Error: voter-policy requires a prompt override text", "Usage: voter-policy <text>"),
            ),
        }
    } else if same(command, "poll") {
        poll_command(arg)
    } else if same(command, "tail") {
        let args = match arg {
            Some(a) => whitespace_words(a),
            None => Vec::new(),
        };
        proof {
            assert(args@.map_values(|w: String| w@) =~= line_views(args@));
            if arg is None {
                assert(line_views(args@) =~= Seq::<Seq<char>>::empty());
            }
        }
        tail_command(&args)
    } else {
        ReplCommand::Unknown(owned(command))
    }
}

/// The first position of the last `n` entries before the tail, never
/// before 0.
pub fn tail_start(tail: i64, n: i16) -> (start: i64)
    requires
        i64::MIN <= tail - n <= i64::MAX,
    ensures
        start == if tail - n > 0 { tail - n } else { 0 },
{
    let t = tail - n as i64;
    if t > 0 {
        t
    } else {
        0
    }
}


/// The commands the prompt offers for completion, in order.
pub open spec fn command_names() -> Seq<Seq<char>> {
    seq![
        "intention"@,
        "decider-policy"@,
        "voter-policy"@,
        "poll"@,
        "tail"@,
        "set-id"@,
        "help"@,
        "quit"@,
        "exit"@,
    ]
}

/// The decider policy names offered for completion, in order.
pub open spec fn policy_names() -> Seq<Seq<char>> {
    seq!["OFF_BY_DEFAULT"@, "ON_BY_DEFAULT"@, "FIRST_BOOLEAN_WINS"@]
}

/// The names that begin with `prefix`, in order.
pub open spec fn starting_with(names: Seq<Seq<char>>, prefix: Seq<char>) -> Seq<Seq<char>> {
    names.filter(|n: Seq<char>| prefix.is_prefix_of(n))
}

/// Where the text a completion replaces begins, in the line up to the
/// cursor.
#[derive(Debug, PartialEq, Eq)]
pub enum CompletionStart {
    /// Before a trailing text of this length: the word being completed.
    BeforeSuffix(String),
    /// Just after the last space of the line (its start when there is none).
    AfterLastSpace,
    /// At the cursor: nothing is replaced.
    AtCursor,
}

/// A completion start as plain values.
pub enum CompletionStartView {
    BeforeSuffix(Seq<char>),
    AfterLastSpace,
    AtCursor,
}

pub open spec fn completion_start_view(s: CompletionStart) -> CompletionStartView {
    match s {
        CompletionStart::BeforeSuffix(w) => CompletionStartView::BeforeSuffix(w@),
        CompletionStart::AfterLastSpace => CompletionStartView::AfterLastSpace,
        CompletionStart::AtCursor => CompletionStartView::AtCursor,
    }
}

/// The candidates offered at the cursor and where they go.
#[derive(Debug)]
pub struct Completion {
    pub start: CompletionStart,
    pub candidates: Vec<String>,
}

/// What the prompt offers for the line up to the cursor: while the first
/// word is typed, the commands that begin with it; for the argument of
/// `decider-policy`, the policy names that begin with it in upper case;
/// else nothing.
pub open spec fn completion_of(line: Seq<char>) -> (CompletionStartView, Seq<Seq<char>>) {
    let parts = words_of(line);
    if parts.len() == 0 || (parts.len() == 1 && !(line.len() > 0 && line.last() == ' ')) {
        let prefix = if parts.len() == 0 { Seq::<char>::empty() } else { parts[0] };
        (CompletionStartView::BeforeSuffix(prefix), starting_with(command_names(), prefix))
    } else if parts[0] == "decider-policy"@ && parts.len() <= 2 {
        let prefix = upper_text(if parts.len() > 1 { parts[1] } else { Seq::<char>::empty() });
        (CompletionStartView::AfterLastSpace, starting_with(policy_names(), prefix))
    } else {
        (CompletionStartView::AtCursor, Seq::empty())
    }
}

/// Whether `s` begins with `prefix`.
fn starts_with_text(s: &str, prefix: &str) -> (b: bool)
    ensures
        b == prefix@.is_prefix_of(s@),
{
    let n = prefix.unicode_len();
    if n > s.unicode_len() {
        return false;
    }
    let mut i: usize = 0;
    while i < n
        invariant
            n == prefix@.len(),
            n <= s@.len(),
            i <= n,
            forall|k: int| 0 <= k < i ==> prefix@[k] == s@[k],
        decreases n - i,
    {
        if s.get_char(i) != prefix.get_char(i) {
            assert(prefix@[i as int] != s@.subrange(0, n as int)[i as int]);
            return false;
        }
        i += 1;
    }
    assert(prefix@ =~= s@.subrange(0, n as int));
    true
}

/// The names among `names` that begin with `prefix`, in order.
fn names_starting_with(names: &Vec<&str>, prefix: &str) -> (r: Vec<String>)
    ensures
        r@.map_values(|w: String| w@) == starting_with(names@.map_values(|w: &str| w@), prefix@),
{
    let ghost all = names@.map_values(|w: &str| w@);
    let ghost pred = |n: Seq<char>| prefix@.is_prefix_of(n);
    let mut out: Vec<String> = Vec::new();
    let mut i: usize = 0;
    while i < names.len()
        invariant
            i <= names@.len(),
            all == names@.map_values(|w: &str| w@),
            pred == (|n: Seq<char>| prefix@.is_prefix_of(n)),
            out@.map_values(|w: String| w@) == all.take(i as int).filter(pred),
        decreases names@.len() - i,
    {
        let name = names[i];
        let ghost before = out@;
        proof {
            assert(all.take(i + 1).drop_last() =~= all.take(i as int));
            assert(all.take(i + 1).last() == name@);
            reveal(Seq::filter);
        }
        if starts_with_text(name, prefix) {
            let mut w = String::new();
            append_str(&mut w, name);
            out.push(w);
            assert(out@.map_values(|w: String| w@) =~= before.map_values(|w: String| w@).push(name@));
        }
        i += 1;
    }
    assert(all.take(names@.len() as int) =~= all);
    out
}

/// The commands the prompt offers.
fn command_list() -> (r: Vec<&'static str>)
    ensures
        r@.map_values(|w: &str| w@) == command_names(),
{
    proof {
        reveal_strlit("quit");
        reveal_strlit("exit");
        reveal_strlit("help");
        reveal_strlit("set-id");
        reveal_strlit("intention");
        reveal_strlit("decider-policy");
        reveal_strlit("voter-policy");
        reveal_strlit("poll");
        reveal_strlit("tail");
    }
    let r = vec!["intention", "decider-policy", "voter-policy", "poll", "tail", "set-id", "help", "quit", "exit"];
    assert(r@.map_values(|w: &str| w@) =~= command_names());
    r
}

/// The decider policy names the prompt offers.
fn policy_list() -> (r: Vec<&'static str>)
    ensures
        r@.map_values(|w: &str| w@) == policy_names(),
{
    proof {
        reveal_strlit("OFF_BY_DEFAULT");
        reveal_strlit("ON_BY_DEFAULT");
        reveal_strlit("FIRST_BOOLEAN_WINS");
    }
    let r = vec!["OFF_BY_DEFAULT", "ON_BY_DEFAULT", "FIRST_BOOLEAN_WINS"];
    assert(r@.map_values(|w: &str| w@) =~= policy_names());
    r
}

/// The completion the prompt offers for `line`, the text up to the cursor.
pub fn complete_line(line: &str) -> (c: Completion)
    ensures
        (completion_start_view(c.start), c.candidates@.map_values(|w: String| w@)) == completion_of(line@),
{
    let parts = whitespace_words(line);
    let ghost words = parts@.map_values(|w: String| w@);
    proof {
        assert(words.len() == parts@.len());
    }
    let n = line.unicode_len();
    let ends_with_space = n > 0 && line.get_char(n - 1) == ' ';
    if parts.len() == 0 || (parts.len() == 1 && !ends_with_space) {
        let mut prefix = String::new();
        if parts.len() == 1 {
            append_str(&mut prefix, parts[0].as_str());
            assert(words[0] == parts@[0]@);
        }
        let candidates = names_starting_with(&command_list(), prefix.as_str());
        return Completion { start: CompletionStart::BeforeSuffix(prefix), candidates };
    }
    assert(words[0] == parts@[0]@);
    proof {
        reveal_strlit("decider-policy");
    }
    if same(parts[0].as_str(), "decider-policy") && parts.len() <= 2 {
        proof {
            reveal_strlit("");
            assert(""@ =~= Seq::<char>::empty());
        }
        let upper = if parts.len() > 1 {
            assert(words[1] == parts@[1]@);
            to_upper(parts[1].as_str())
        } else {
            to_upper("")
        };
        assert(upper@ == upper_text(if words.len() > 1 { words[1] } else { Seq::<char>::empty() }));
        assert(words == words_of(line@));
        let candidates = names_starting_with(&policy_list(), upper.as_str());
        return Completion { start: CompletionStart::AfterLastSpace, candidates };
    }
    let c = Completion { start: CompletionStart::AtCursor, candidates: Vec::new() };
    assert(c.candidates@.map_values(|w: String| w@) =~= Seq::<Seq<char>>::empty());
    c
}

} // verus!
