//! The session token. The environment of the user's session is a text of
//! lines, each of the form `NAME=value`; the token is the value of the first
//! line whose name is `OP_SESSION`.

use crate::error::{result_text, Error};
use crate::text::{chars_of, find_char, first_index, same_text};
use vstd::prelude::*;
use vstd::string::*;

verus! {

/// The token that lets the vault manager answer.
pub type Session = String;

// ---------------------------------------------------------------------------
// Model
// ---------------------------------------------------------------------------

/// The name of the variable that carries the session token.
pub open spec fn session_name() -> Seq<char> {
    "OP_SESSION"@
}

/// `line` without the carriage return at its end, if it has one.
pub open spec fn without_carriage_return(line: Seq<char>) -> Seq<char> {
    if line.len() > 0 && line.last() == '\r' {
        line.drop_last()
    } else {
        line
    }
}

/// The token that `line` carries: what follows its first `=`, where what
/// stands before it is the name of the variable.
pub open spec fn session_of_line(line: Seq<char>) -> Option<Seq<char>> {
    let eq = first_index(line, '=');
    if eq < line.len() && line.take(eq as int) == session_name() {
        Some(line.skip(eq + 1 as int))
    } else {
        None
    }
}

/// The token that the environment text carries: that of its first line that
/// carries one. Lines end with a newline, or a carriage return and a newline;
/// the last line may go without.
pub open spec fn session_in(environment: Seq<char>) -> Option<Seq<char>>
    decreases environment.len(),
{
    if environment.len() == 0 {
        None
    } else {
        let end = first_index(environment, '\n');
        if end < environment.len() {
            match session_of_line(without_carriage_return(environment.take(end as int))) {
                Some(token) => Some(token),
                None => session_in(environment.skip(end + 1 as int)),
            }
        } else {
            session_of_line(environment)
        }
    }
}

/// What the environment query comes to: the token, where the query succeeded
/// and the environment carries one.
pub open spec fn session_from_query(succeeded: bool, environment: Seq<char>) -> Result<
    Seq<char>,
    Error,
> {
    if !succeeded {
        Err(Error::EnvironmentQueryFailed)
    } else {
        match session_in(environment) {
            Some(token) => Ok(token),
            None => Err(Error::NoSession),
        }
    }
}

// ---------------------------------------------------------------------------
// Functions
// ---------------------------------------------------------------------------

/// Finds the session token in the environment text.
pub fn find_session(environment: &str) -> (r: Option<Session>)
    ensures
        match r {
            Some(token) => session_in(environment@) == Some(token@),
            None => session_in(environment@) is None,
        },
{
    let chars = chars_of(environment);
    let total: usize = chars.len();
    let mut from: usize = 0;
    proof {
        assert(chars@.subrange(0, total as int) =~= environment@);
    }
    while from < total
        invariant
            from <= total,
            total == chars.len(),
            chars@ == environment@,
            session_in(environment@) == session_in(chars@.subrange(from as int, total as int)),
        decreases total - from,
    {
        let ghost rest = chars@.subrange(from as int, total as int);
        let end: usize = find_char(&chars, from, total, '\n');
        let line_end: usize = if end < total && end > from && chars[end - 1] == '\r' {
            end - 1
        } else {
            end
        };
        let ghost line = chars@.subrange(from as int, line_end as int);
        proof {
            if end < total {
                let whole = rest.take(end - from);
                assert(line =~= without_carriage_return(whole));
                assert(rest.skip(end - from + 1) =~= chars@.subrange(end + 1, total as int));
            }
        }
        let eq: usize = find_char(&chars, from, line_end, '=');
        if eq < line_end {
            let name = environment.substring_char(from, eq);
            proof {
                assert(line.take(eq - from) =~= name@);
                reveal_strlit("OP_SESSION");
            }
            if same_text(name, "OP_SESSION") {
                return Some(String::from_str(environment.substring_char(eq + 1, line_end)));
            }
        }
        if end >= total {
            return None;
        }
        from = end + 1;
    }
    None
}

/// What the environment query comes to: the token to try, or why there is
/// none.
pub fn get_op_session_from_systemd(succeeded: bool, environment: &str) -> (r: Result<
    Session,
    Error,
>)
    ensures
        result_text(r) == session_from_query(succeeded, environment@),
{
    if !succeeded {
        return Err(Error::EnvironmentQueryFailed);
    }
    match find_session(environment) {
        Some(token) => Ok(token),
        None => Err(Error::NoSession),
    }
}

/// The token, where the vault manager took it; a token that it refused means
/// that nobody is signed in.
pub fn accept_session(token: Session, valid: bool) -> (r: Result<Session, Error>)
    ensures
        r == if valid {
            Ok::<Session, Error>(token)
        } else {
            Err::<Session, Error>(Error::NotSignedIn)
        },
{
    if valid {
        Ok(token)
    } else {
        Err(Error::NotSignedIn)
    }
}

} // verus!
