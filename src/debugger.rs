use vstd::prelude::*;

verus! {

/// What a `show` command asks to see.
#[derive(Debug, Clone, Copy, PartialEq, Eq, Structural)]
pub enum ShowArgs {
    /// The program counter.
    PC,
    /// The byte at a memory address.
    Mem(usize),
    /// The return address in a stack slot.
    Stack(usize),
    /// The stack pointer.
    SP,
    /// A general register.
    V(u8),
    /// The index register.
    I,
    /// The delay timer.
    DT,
    /// The sound timer.
    ST,
    /// Whether the interpreter waits for a key.
    WaitingKey,
}

/// A debugger command.
#[derive(Debug, Clone, Copy, PartialEq, Eq, Structural)]
pub enum DebuggerAction {
    /// Execute one instruction cycle.
    Step,
    /// Print part of the machine state.
    Show(ShowArgs),
    /// Run freely.
    Run,
    /// Leave the debugger.
    Quit,
    /// Print the command summary.
    Help,
}

/// Why a debugger command was refused.
#[derive(Debug, Clone, Copy, PartialEq, Eq, Structural)]
pub enum CommandError {
    /// A memory address at or past `0x1000`.
    MemoryAddressOutOfRange,
    /// A stack slot at or past `0x10`.
    StackAddressOutOfRange,
    /// An address that is not a hexadecimal number.
    InvalidAddress,
    /// A register number past 15.
    RegisterOutOfRange,
    /// A register number that is not a decimal number.
    InvalidRegister,
    /// A `show` command whose argument is refused.
    UnknownShowArg,
    /// Text that is no command.
    UnknownCommand,
}

/// Exclusive upper bound of the addresses that `show mem` accepts.
pub const SHOW_MEMORY_LIMIT: usize = 0x1000;

/// Exclusive upper bound of the slots that `show stack` accepts.
pub const SHOW_STACK_LIMIT: usize = 0x10;

/// Whether `c` has Unicode's White_Space property.
pub uninterp spec fn white_space(c: char) -> bool;

/// Relies on char::is_whitespace: whether `c` has the White_Space property
/// (the space character has it).
#[verifier::external_body]
fn is_whitespace(c: char) -> (r: bool)
    ensures
        r == white_space(c),
        c == ' ' ==> r,
{
    c.is_whitespace()
}

/// `s` without its leading white space.
pub open spec fn trim_start(s: Seq<char>) -> Seq<char>
    decreases s.len(),
{
    if s.len() > 0 && white_space(s[0]) {
        trim_start(s.drop_first())
    } else {
        s
    }
}

/// `s` without its trailing white space.
pub open spec fn trim_end(s: Seq<char>) -> Seq<char>
    decreases s.len(),
{
    if s.len() > 0 && white_space(s.last()) {
        trim_end(s.drop_last())
    } else {
        s
    }
}

/// `s` without leading and trailing white space.
pub open spec fn trimmed(s: Seq<char>) -> Seq<char> {
    trim_end(trim_start(s))
}

/// Whether `s` begins with `prefix`.
pub open spec fn starts_with(s: Seq<char>, prefix: Seq<char>) -> bool {
    prefix.len() <= s.len() && s.subrange(0, prefix.len() as int) == prefix
}

/// The value of a digit: `0-9`, then `a-z` or `A-Z` for 10 to 35; 36 for
/// any other character.
pub open spec fn digit_value(c: char) -> nat {
    if '0' <= c && c <= '9' {
        (c as u32 - '0' as u32) as nat
    } else if 'a' <= c && c <= 'z' {
        (c as u32 - 'a' as u32 + 10) as nat
    } else if 'A' <= c && c <= 'Z' {
        (c as u32 - 'A' as u32 + 10) as nat
    } else {
        36
    }
}

/// The number that the digits `d` denote in base `radix`.
pub open spec fn digits_value(d: Seq<char>, radix: nat) -> nat
    decreases d.len(),
{
    if d.len() == 0 {
        0
    } else {
        digits_value(d.drop_last(), radix) * radix + digit_value(d.last())
    }
}

/// Whether every character of `d` is a digit of base `radix`.
pub open spec fn all_digits(d: Seq<char>, radix: nat) -> bool {
    forall|i: int| 0 <= i < d.len() ==> #[trigger] digit_value(d[i]) < radix
}

/// `s` without a leading `+`.
pub open spec fn without_plus(s: Seq<char>) -> Seq<char> {
    if s.len() > 0 && s[0] == '+' {
        s.drop_first()
    } else {
        s
    }
}

/// The unsigned number that `s` spells in base `radix`: an optional `+`
/// followed by at least one digit and nothing else.
pub open spec fn unsigned_value(s: Seq<char>, radix: nat) -> Option<nat> {
    let d = without_plus(s);
    if d.len() > 0 && all_digits(d, radix) {
        Some(digits_value(d, radix))
    } else {
        None
    }
}

/// The number that `s` spells in base `radix`, when it fits in a `usize`.
pub open spec fn parsed_usize(s: Seq<char>, radix: nat) -> Option<usize> {
    match unsigned_value(s, radix) {
        Some(v) => if v <= usize::MAX {
            Some(v as usize)
        } else {
            None
        },
        None => None,
    }
}

/// The address argument `rest` of `show mem` or `show stack`: a hexadecimal
/// number below `limit`.
pub open spec fn address_arg(rest: Seq<char>, limit: usize, too_large: CommandError) -> Result<
    usize,
    CommandError,
> {
    match parsed_usize(trimmed(rest), 16) {
        Some(a) => if a < limit {
            Ok(a)
        } else {
            Err(too_large)
        },
        None => Err(CommandError::InvalidAddress),
    }
}

/// The register argument `rest` of `show v`: a decimal number up to 15
/// that fits in a byte.
pub open spec fn register_arg(rest: Seq<char>) -> Result<u8, CommandError> {
    match parsed_usize(rest, 10) {
        Some(n) => if n <= 15 {
            Ok(n as u8)
        } else if n <= 255 {
            Err(CommandError::RegisterOutOfRange)
        } else {
            Err(CommandError::InvalidRegister)
        },
        None => Err(CommandError::InvalidRegister),
    }
}

/// The meaning of the argument `t` of `show`, already trimmed.
pub open spec fn show_spec(t: Seq<char>) -> Result<ShowArgs, CommandError> {
    if t == "pc"@ {
        Ok(ShowArgs::PC)
    } else if starts_with(t, "mem"@) {
        match address_arg(t.skip(3), SHOW_MEMORY_LIMIT, CommandError::MemoryAddressOutOfRange) {
            Ok(a) => Ok(ShowArgs::Mem(a)),
            Err(e) => Err(e),
        }
    } else if starts_with(t, "stack"@) {
        match address_arg(t.skip(5), SHOW_STACK_LIMIT, CommandError::StackAddressOutOfRange) {
            Ok(a) => Ok(ShowArgs::Stack(a)),
            Err(e) => Err(e),
        }
    } else if t == "sp"@ {
        Ok(ShowArgs::SP)
    } else if starts_with(t, "v"@) {
        match register_arg(t.skip(1)) {
            Ok(n) => Ok(ShowArgs::V(n)),
            Err(e) => Err(e),
        }
    } else if t == "i"@ {
        Ok(ShowArgs::I)
    } else if t == "dt"@ {
        Ok(ShowArgs::DT)
    } else if t == "st"@ {
        Ok(ShowArgs::ST)
    } else if t == "waiting_key"@ || t == "wk"@ {
        Ok(ShowArgs::WaitingKey)
    } else {
        Err(CommandError::UnknownCommand)
    }
}

/// The meaning of the command `t`, already trimmed.
pub open spec fn action_spec(t: Seq<char>) -> Result<DebuggerAction, CommandError> {
    if t == "step"@ {
        Ok(DebuggerAction::Step)
    } else if starts_with(t, "show"@) {
        match show_spec(trimmed(t.skip(4))) {
            Ok(a) => Ok(DebuggerAction::Show(a)),
            Err(_) => Err(CommandError::UnknownShowArg),
        }
    } else if t == "run"@ {
        Ok(DebuggerAction::Run)
    } else if t == "quit"@ {
        Ok(DebuggerAction::Quit)
    } else if t == "help"@ {
        Ok(DebuggerAction::Help)
    } else {
        Err(CommandError::UnknownCommand)
    }
}

/// The characters of `s`.
fn chars_of(s: &str) -> (r: Vec<char>)
    ensures
        r@ == s@,
{
    let mut r: Vec<char> = Vec::new();
    for c in it: s.chars()
        invariant
            it.seq() == s@,
            r@ == s@.take(it.index()),
    {
        r.push(c);
        assert(r@ =~= s@.take(it.index() + 1));
    }
    assert(r@ =~= s@);
    r
}

/// A copy of `s[from..to]`.
fn copy_range(s: &Vec<char>, from: usize, to: usize) -> (r: Vec<char>)
    requires
        from <= to <= s@.len(),
    ensures
        r@ == s@.subrange(from as int, to as int),
{
    let mut r: Vec<char> = Vec::new();
    let mut k: usize = from;
    while k < to
        invariant
            from <= k <= to <= s@.len(),
            r@ == s@.subrange(from as int, k as int),
        decreases to - k,
    {
        r.push(s[k]);
        k = k + 1;
        assert(r@ =~= s@.subrange(from as int, k as int));
    }
    r
}

/// `s` without leading and trailing white space.
fn trim(s: &Vec<char>) -> (r: Vec<char>)
    ensures
        r@ == trimmed(s@),
{
    let mut start: usize = 0;
    assert(s@.subrange(0, s@.len() as int) =~= s@);
    while start < s.len() && is_whitespace(s[start])
        invariant
            start <= s@.len(),
            trim_start(s@) == trim_start(s@.subrange(start as int, s@.len() as int)),
        decreases s@.len() - start,
    {
        assert(s@.subrange(start as int, s@.len() as int).drop_first() =~= s@.subrange(
            start + 1,
            s@.len() as int,
        ));
        start = start + 1;
    }
    let ghost front = s@.subrange(start as int, s@.len() as int);
    assert(trim_start(s@) == front);
    let mut end: usize = s.len();
    while end > start && is_whitespace(s[end - 1])
        invariant
            start <= end <= s@.len(),
            front == s@.subrange(start as int, s@.len() as int),
            trim_end(front) == trim_end(s@.subrange(start as int, end as int)),
        decreases end,
    {
        assert(s@.subrange(start as int, end as int).drop_last() =~= s@.subrange(
            start as int,
            end - 1,
        ));
        end = end - 1;
    }
    copy_range(s, start, end)
}

/// Whether `s` equals the text `w`.
fn equals_text(s: &Vec<char>, w: &str) -> (r: bool)
    ensures
        r == (s@ == w@),
{
    let wc = chars_of(w);
    if s.len() != wc.len() {
        assert(s@.len() != w@.len());
        return false;
    }
    let mut k: usize = 0;
    while k < s.len()
        invariant
            wc@ == w@,
            s@.len() == wc@.len(),
            k <= s@.len(),
            forall|j: int| 0 <= j < k ==> s@[j] == wc@[j],
        decreases s@.len() - k,
    {
        if s[k] != wc[k] {
            assert(s@[k as int] != w@[k as int]);
            return false;
        }
        k = k + 1;
    }
    assert(s@ =~= w@);
    true
}

/// Whether `s` begins with the text `w`.
fn starts_with_text(s: &Vec<char>, w: &str) -> (r: bool)
    ensures
        r == starts_with(s@, w@),
{
    let wc = chars_of(w);
    if wc.len() > s.len() {
        return false;
    }
    let mut k: usize = 0;
    while k < wc.len()
        invariant
            wc@ == w@,
            wc@.len() <= s@.len(),
            k <= wc@.len(),
            forall|j: int| 0 <= j < k ==> s@[j] == wc@[j],
        decreases wc@.len() - k,
    {
        if s[k] != wc[k] {
            assert(s@.subrange(0, w@.len() as int)[k as int] != w@[k as int]);
            return false;
        }
        k = k + 1;
    }
    assert(s@.subrange(0, w@.len() as int) =~= w@);
    true
}

/// The value of the digit `c`, as `digit_value` gives it.
fn digit_of(c: char) -> (r: u32)
    ensures
        r == digit_value(c),
{
    if '0' <= c && c <= '9' {
        c as u32 - '0' as u32
    } else if 'a' <= c && c <= 'z' {
        c as u32 - 'a' as u32 + 10
    } else if 'A' <= c && c <= 'Z' {
        c as u32 - 'A' as u32 + 10
    } else {
        36
    }
}

proof fn lemma_digits_prefix_bound(d: Seq<char>, radix: nat, m: int)
    requires
        radix >= 1,
        0 <= m <= d.len(),
    ensures
        digits_value(d.subrange(0, m), radix) <= digits_value(d, radix),
    decreases d.len(),
{
    if m < d.len() {
        let p = d.drop_last();
        lemma_digits_prefix_bound(p, radix, m);
        assert(p.subrange(0, m) =~= d.subrange(0, m));
        let v = digits_value(p, radix);
        assert(v <= v * radix) by (nonlinear_arith)
            requires
                radix >= 1,
        ;
    } else {
        assert(d.subrange(0, m) =~= d);
    }
}

/// The number that `s` spells in base `radix` (an optional `+` and at least
/// one digit), or `None` when it is no such number or does not fit.
#[verifier::rlimit(30)]
fn parse_unsigned(s: &Vec<char>, radix: usize) -> (r: Option<usize>)
    requires
        2 <= radix <= 36,
    ensures
        r == parsed_usize(s@, radix as nat),
{
    let begin: usize = if s.len() > 0 && s[0] == '+' {
        1
    } else {
        0
    };
    let ghost d = s@.subrange(begin as int, s@.len() as int);
    assert(d =~= without_plus(s@));
    if begin == s.len() {
        assert(d.len() == 0);
        return None;
    }
    let mut acc: usize = 0;
    let mut k: usize = begin;
    while k < s.len()
        invariant
            2 <= radix <= 36,
            begin <= k <= s@.len(),
            d == s@.subrange(begin as int, s@.len() as int),
            d == without_plus(s@),
            acc == digits_value(d.subrange(0, k - begin), radix as nat),
            all_digits(d.subrange(0, k - begin), radix as nat),
        decreases s@.len() - k,
    {
        let digit = digit_of(s[k]);
        let ghost next = d.subrange(0, k - begin + 1);
        assert(next.drop_last() =~= d.subrange(0, k - begin));
        assert(next.last() == s@[k as int]);
        if digit as usize >= radix {
            assert(d[k - begin] == s@[k as int]);
            assert(digit_value(d[k - begin]) >= radix);
            assert(!all_digits(d, radix as nat));
            assert(unsigned_value(s@, radix as nat) is None);
            return None;
        }
        let scaled = acc.checked_mul(radix);
        let sum = match scaled {
            Some(m) => m.checked_add(digit as usize),
            None => None,
        };
        match sum {
            Some(v) => {
                acc = v;
            },
            None => {
                proof {
                    if all_digits(d, radix as nat) {
                        lemma_digits_prefix_bound(d, radix as nat, k - begin + 1);
                        assert(digits_value(next, radix as nat) == acc * radix + digit);
                        assert(acc * radix + digit > usize::MAX);
                        assert(digits_value(d, radix as nat) > usize::MAX);
                        assert(unsigned_value(s@, radix as nat) == Some(
                            digits_value(d, radix as nat),
                        ));
                    }
                }
                return None;
            },
        }
        k = k + 1;
        assert(all_digits(d.subrange(0, k - begin), radix as nat)) by {
            assert forall|i: int| 0 <= i < k - begin implies #[trigger] digit_value(
                d.subrange(0, k - begin)[i],
            ) < radix by {
                if i < k - begin - 1 {
                    assert(d.subrange(0, k - begin)[i] == d.subrange(0, k - begin - 1)[i]);
                }
            }
        }
    }
    assert(d.subrange(0, k - begin) =~= d);
    Some(acc)
}

impl ShowArgs {
    /// Parses the argument of a `show` command, ignoring surrounding white
    /// space.
    pub fn parse(input: &str) -> (r: Result<ShowArgs, CommandError>)
        ensures
            r == show_spec(trimmed(input@)),
    {
        let all = chars_of(input);
        let t = trim(&all);
        Self::parse_trimmed(&t)
    }

    fn parse_trimmed(t: &Vec<char>) -> (r: Result<ShowArgs, CommandError>)
        ensures
            r == show_spec(t@),
    {
        proof {
            reveal_strlit("mem");
            reveal_strlit("stack");
            reveal_strlit("v");
        }
        if equals_text(t, "pc") {
            Ok(ShowArgs::PC)
        } else if starts_with_text(t, "mem") {
            match parse_address(t, 3, SHOW_MEMORY_LIMIT, CommandError::MemoryAddressOutOfRange) {
                Ok(a) => Ok(ShowArgs::Mem(a)),
                Err(e) => Err(e),
            }
        } else if starts_with_text(t, "stack") {
            match parse_address(t, 5, SHOW_STACK_LIMIT, CommandError::StackAddressOutOfRange) {
                Ok(a) => Ok(ShowArgs::Stack(a)),
                Err(e) => Err(e),
            }
        } else if equals_text(t, "sp") {
            Ok(ShowArgs::SP)
        } else if starts_with_text(t, "v") {
            let rest = copy_range(t, 1, t.len());
            assert(rest@ == t@.skip(1));
            match parse_unsigned(&rest, 10) {
                Some(n) => if n <= 15 {
                    Ok(ShowArgs::V(n as u8))
                } else if n <= 255 {
                    Err(CommandError::RegisterOutOfRange)
                } else {
                    Err(CommandError::InvalidRegister)
                },
                None => Err(CommandError::InvalidRegister),
            }
        } else if equals_text(t, "i") {
            Ok(ShowArgs::I)
        } else if equals_text(t, "dt") {
            Ok(ShowArgs::DT)
        } else if equals_text(t, "st") {
            Ok(ShowArgs::ST)
        } else if equals_text(t, "waiting_key") || equals_text(t, "wk") {
            Ok(ShowArgs::WaitingKey)
        } else {
            Err(CommandError::UnknownCommand)
        }
    }
}

/// The address after the first `skip` characters of `t`, trimmed, as
/// `address_arg` reads it.
fn parse_address(t: &Vec<char>, skip: usize, limit: usize, too_large: CommandError) -> (r: Result<
    usize,
    CommandError,
>)
    requires
        skip <= t@.len(),
    ensures
        r == address_arg(t@.skip(skip as int), limit, too_large),
{
    let rest = copy_range(t, skip, t.len());
    assert(rest@ == t@.skip(skip as int));
    let rest = trim(&rest);
    match parse_unsigned(&rest, 16) {
        Some(a) => if a < limit {
            Ok(a)
        } else {
            Err(too_large)
        },
        None => Err(CommandError::InvalidAddress),
    }
}

impl DebuggerAction {
    /// Parses a debugger command, ignoring surrounding white space.
    pub fn parse(input: &str) -> (r: Result<DebuggerAction, CommandError>)
        ensures
            r == action_spec(trimmed(input@)),
    {
        proof {
            reveal_strlit("show");
        }
        let all = chars_of(input);
        let t = trim(&all);
        if equals_text(&t, "step") {
            Ok(DebuggerAction::Step)
        } else if starts_with_text(&t, "show") {
            let rest = copy_range(&t, 4, t.len());
            assert(rest@ == t@.skip(4));
            let arg = trim(&rest);
            match ShowArgs::parse_trimmed(&arg) {
                Ok(a) => Ok(DebuggerAction::Show(a)),
                Err(_) => Err(CommandError::UnknownShowArg),
            }
        } else if equals_text(&t, "run") {
            Ok(DebuggerAction::Run)
        } else if equals_text(&t, "quit") {
            Ok(DebuggerAction::Quit)
        } else if equals_text(&t, "help") {
            Ok(DebuggerAction::Help)
        } else {
            Err(CommandError::UnknownCommand)
        }
    }
}

impl core::str::FromStr for ShowArgs {
    type Err = CommandError;

    fn from_str(input: &str) -> Result<ShowArgs, CommandError> {
        ShowArgs::parse(input)
    }
}

impl core::str::FromStr for DebuggerAction {
    type Err = CommandError;

    fn from_str(input: &str) -> Result<DebuggerAction, CommandError> {
        DebuggerAction::parse(input)
    }
}

} // verus!
