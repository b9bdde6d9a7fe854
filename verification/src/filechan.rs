//! The protocol of the long-lived ssh channel of the file panel.
//!
//! One command per line goes in; the remote loop `eval`s it and answers with
//! its output, ended by a line `__END__<exit code>` of its own. Every command
//! is built by this library with its paths quoted; nothing else is sent.
use vstd::prelude::*;

use crate::command::{exit_code_message, result_view};
use crate::text::{
    all_ascii_digits, chars_eq, chars_of, digit_text_value, parse_uint_chars, parse_uint_text,
    push_chars, push_i64, slice_chars, string_of, trim, trim_chars,
};

verus! {

/// The remote loop: stderr joins stdout, so errors come back too; each line
/// read is evaluated and followed by `__END__<exit code>`.
pub const REMOTE_LOOP: &'static str =
    "exec 2>&1\nwhile IFS= read -r line; do\neval \"$line\"\nprintf '__END__%s\\n' \"$?\"\ndone\n";

/// The line prefix that ends an answer.
pub const END_MARKER: &'static str = "__END__";

/// How long an unused channel may stay open, in milliseconds.
pub open spec fn idle_timeout_ms() -> nat {
    300000
}

/// The channel can serve `host`: it was opened for that host and has been
/// used within the idle timeout.
pub fn chan_usable(chan_host: &str, host: &str, idle_ms: u64) -> (r: bool)
    ensures
        r == (chan_host@ == host@ && idle_ms < idle_timeout_ms()),
{
    let a = chars_of(chan_host);
    let b = chars_of(host);
    chars_eq(&a, &b) && idle_ms < 300000
}

/// One answer of the remote loop.
pub struct ChanReply {
    pub out: String,
    pub code: i32,
}

/// `str::parse::<i32>`: an optional sign, then at least one ASCII digit and
/// nothing else, within the range of `i32`.
pub open spec fn parse_i32_text(s: Seq<char>) -> Option<int> {
    if s.len() > 0 && s[0] == '-' {
        let d = s.drop_first();
        if d.len() > 0 && all_ascii_digits(d) && digit_text_value(d) <= 2147483648 {
            Some(-digit_text_value(d))
        } else {
            None
        }
    } else {
        match parse_uint_text(s, 2147483647) {
            Some(v) => Some(v as int),
            None => None,
        }
    }
}

fn parse_i32_chars(s: &[char]) -> (r: Option<i32>)
    ensures
        match r {
            Some(v) => parse_i32_text(s@) == Some(v as int),
            None => parse_i32_text(s@) is None,
        },
{
    if s.len() > 0 && s[0] == '-' {
        let rest = slice_chars(s, 1, s.len());
        assert(rest@ =~= s@.drop_first());
        if rest.len() > 0 && rest[0] == '+' {
            assert(!('0' <= rest@[0] <= '9'));
            assert(!all_ascii_digits(rest@));
            return None;
        }
        match parse_uint_chars(&rest, 2147483648) {
            Some(v) => {
                assert(v <= 2147483648);
                let r: i64 = -(v as i64);
                Some(r as i32)
            },
            None => None,
        }
    } else {
        match parse_uint_chars(s, 2147483647) {
            Some(v) => Some(v as i32),
            None => None,
        }
    }
}

/// The exit code that an end line carries after `__END__`, trimmed; -1 when
/// it does not parse.
pub open spec fn end_code(rest: Seq<char>) -> int {
    match parse_i32_text(trim(rest)) {
        Some(v) => v,
        None => -1,
    }
}

/// Feeds one line read from the channel (with its line ending) into the
/// answer being collected in `buf`. An end line `__END__<code>` finishes the
/// answer: it is returned with the collected text, and `buf` is emptied.
/// Any other line is added to `buf`.
pub fn read_reply_line(buf: &mut Vec<char>, line: &str) -> (r: Option<ChanReply>)
    ensures
        ({
            let l = line@;
            let m = END_MARKER@;
            if m.len() <= l.len() && l.subrange(0, m.len() as int) == m {
                r matches Some(rep) && rep.out@ == old(buf)@ && rep.code as int == end_code(
                    l.subrange(m.len() as int, l.len() as int),
                ) && final(buf)@.len() == 0
            } else {
                r is None && final(buf)@ == old(buf)@ + l
            }
        }),
{
    let l = chars_of(line);
    let m = chars_of(END_MARKER);
    if m.len() <= l.len() {
        let head = slice_chars(&l, 0, m.len());
        if chars_eq(&head, &m) {
            let rest = slice_chars(&l, m.len(), l.len());
            let t = trim_chars(&rest);
            let code: i32 = match parse_i32_chars(&t) {
                Some(v) => v,
                None => -1,
            };
            let out = string_of(buf);
            buf.clear();
            return Some(ChanReply { out, code });
        }
    }
    push_chars(buf, &l);
    None
}

/// The result of one command on the channel: its output when it exited 0;
/// else its trimmed output (errors are mixed into it), or a message with the
/// exit code when there is none.
pub open spec fn reply_result_of(out: Seq<char>, code: i32) -> Result<Seq<char>, Seq<char>> {
    if code == 0 {
        Ok(out)
    } else if trim(out).len() == 0 {
        Err(exit_code_message(code as int))
    } else {
        Err(trim(out))
    }
}

/// Judges one answer of the channel (see `reply_result_of`).
pub fn reply_result(out: &str, code: i32) -> (r: Result<String, String>)
    ensures
        result_view(r) == reply_result_of(out@, code),
{
    if code == 0 {
        return Ok(out.to_owned());
    }
    let msg = trim_chars(&chars_of(out));
    if msg.len() == 0 {
        let mut v = chars_of("远端命令退出码 ");
        push_i64(&mut v, code as i64);
        Err(string_of(&v))
    } else {
        Err(string_of(&msg))
    }
}

} // verus!
