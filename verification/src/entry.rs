//! Directive recognition and entry parsing: one raw line in, one typed
//! [`Entry`] out.
//!
//! Keyword matching is insensitive to spacing anywhere in the line: all
//! whitespace is removed before the keywords are matched. Boundary
//! detection (`is_new_transaction`) only trims the ends of the line.
use vstd::prelude::*;

use crate::errors::Error;
use crate::errors::msg_bad_argument;
use crate::errors::msg_bad_stage;
use crate::errors::msg_bad_u64;
use crate::errors::msg_entry_prefix;
use crate::errors::msg_not_entry;
use crate::errors::msg_sender_empty;
use crate::stage::Stage;
use crate::stage::stage_of;
use crate::text::dec_body;
use crate::text::dec_val;
use crate::text::has_prefix;
use crate::text::has_suffix;
use crate::text::is_u64_literal;
use crate::text::is_ws_char;
use crate::text::lemma_trim_front_at;
use crate::text::lower_seq;
use crate::text::split_commas;
use crate::text::starts_with;
use crate::text::str_eq;
use crate::text::strip_ws;
use crate::text::to_ascii_lower;
use crate::text::trim;
use crate::text::trim_front;
use crate::text::trimmed;
use crate::text::collapse_ws;
use crate::text::ends_with;
use crate::text::parse_u64;
use crate::text::split_at_commas;
use crate::text::ws_char;
use crate::value::ArgValue;
use crate::value::TransactionArgument;
use crate::value::literal_of;
use crate::value::parse_literal;

verus! {

/// A partially parsed transaction argument: either a self-contained typed
/// literal, or a symbolic reference to a registered account, resolved
/// later against the global registry.
#[derive(Debug)]
pub enum Argument {
    AddressOf(String),
    SelfContained(TransactionArgument),
}

/// The mathematical value of an [`Argument`].
pub enum ArgumentV {
    AddressOf(Seq<char>),
    SelfContained(ArgValue),
}

impl View for Argument {
    type V = ArgumentV;

    open spec fn view(&self) -> ArgumentV {
        match self {
            Argument::AddressOf(name) => ArgumentV::AddressOf(name@),
            Argument::SelfContained(v) => ArgumentV::SelfContained(v@),
        }
    }
}

/// What parsing the token `t` as an argument yields: the typed-literal
/// grammar takes priority; otherwise a token of the form `{{name}}` is a
/// symbolic reference; everything else is rejected.
pub open spec fn parse_argument_spec(t: Seq<char>) -> Result<ArgumentV, Seq<char>> {
    match literal_of(t) {
        Some(v) => Ok(ArgumentV::SelfContained(v)),
        None => if has_prefix(t, "{{"@) && has_suffix(t, "}}"@) {
            Ok(ArgumentV::AddressOf(t.subrange(2, t.len() - 2)))
        } else {
            Err(msg_bad_argument(t))
        },
    }
}

impl Argument {
    /// Parses one whitespace-free token as an argument.
    pub fn from_str(s: &str) -> (r: Result<Argument, Error>)
        ensures
            r matches Ok(a) ==> parse_argument_spec(s@) == Ok::<ArgumentV, Seq<char>>(a@),
            r matches Err(e) ==> parse_argument_spec(s@) == Err::<ArgumentV, Seq<char>>(e@),
    {
        match parse_literal(s) {
            Some(v) => Ok(Argument::SelfContained(v)),
            None => {
                if starts_with(s, "{{") && ends_with(s, "}}") {
                    let n = s.unicode_len();
                    proof {
                        reveal_strlit("{{");
                        reveal_strlit("}}");
                        assert(s@.subrange(0, 2)[0] == '{' && s@.subrange(0, 2)[1] == '{');
                        assert(s@[0] == '{' && s@[1] == '{');
                        let m = s@.len() as int;
                        assert(s@.subrange(m - 2, m)[0] == '}' && s@.subrange(m - 2, m)[1]
                            == '}');
                        assert(s@[m - 2] == '}' && s@[m - 1] == '}');
                        assert(m >= 4);
                    }
                    let name = s.substring_char(2, n - 2);
                    Ok(Argument::AddressOf(String::from_str(name)))
                } else {
                    Err(Error::around("failed to parse '", s, "' as argument"))
                }
            },
        }
    }
}

/// A raw entry extracted from one directive line, consumed by the
/// configuration builder.
#[derive(Debug)]
pub enum Entry {
    DisableStages(Vec<Stage>),
    Sender(String),
    Arguments(Vec<Argument>),
    MaxGas(u64),
    SequenceNumber(u64),
}

/// The mathematical value of an [`Entry`].
pub enum EntryV {
    DisableStages(Seq<Stage>),
    Sender(Seq<char>),
    Arguments(Seq<ArgumentV>),
    MaxGas(u64),
    SequenceNumber(u64),
}

impl View for Entry {
    type V = EntryV;

    open spec fn view(&self) -> EntryV {
        match self {
            Entry::DisableStages(v) => EntryV::DisableStages(v@),
            Entry::Sender(name) => EntryV::Sender(name@),
            Entry::Arguments(v) => EntryV::Arguments(v@.map_values(|a: Argument| a@)),
            Entry::MaxGas(n) => EntryV::MaxGas(*n),
            Entry::SequenceNumber(n) => EntryV::SequenceNumber(*n),
        }
    }
}

/// Parses the comma-separated pieces of an `args:` directive, in order,
/// dropping empty pieces; the first failure aborts the whole list.
pub open spec fn parse_args_pieces(pieces: Seq<Seq<char>>) -> Result<Seq<ArgumentV>, Seq<char>>
    decreases pieces.len(),
{
    if pieces.len() == 0 {
        Ok(Seq::empty())
    } else if pieces.first().len() == 0 {
        parse_args_pieces(pieces.drop_first())
    } else {
        match parse_argument_spec(pieces.first()) {
            Err(m) => Err(m),
            Ok(a) => match parse_args_pieces(pieces.drop_first()) {
                Err(m) => Err(m),
                Ok(tail) => Ok(seq![a] + tail),
            },
        }
    }
}

/// Parses the comma-separated pieces of a `no-run:` directive, in order,
/// dropping empty pieces; the first failure aborts the whole list.
pub open spec fn parse_stages_pieces(pieces: Seq<Seq<char>>) -> Result<Seq<Stage>, Seq<char>>
    decreases pieces.len(),
{
    if pieces.len() == 0 {
        Ok(Seq::empty())
    } else if pieces.first().len() == 0 {
        parse_stages_pieces(pieces.drop_first())
    } else {
        match stage_of(pieces.first()) {
            None => Err(msg_bad_stage(pieces.first())),
            Some(st) => match parse_stages_pieces(pieces.drop_first()) {
                Err(m) => Err(m),
                Ok(tail) => Ok(seq![st] + tail),
            },
        }
    }
}

/// What parsing one raw line as an entry yields. All whitespace of the
/// line is removed first; the line must then open with `//!`, followed by
/// one of the five directive keywords.
pub open spec fn parse_entry_spec(s: Seq<char>) -> Result<EntryV, Seq<char>> {
    let c = strip_ws(s);
    if !has_prefix(c, "//!"@) {
        Err(msg_entry_prefix())
    } else {
        let r = c.skip("//!"@.len() as int);
        if has_prefix(r, "sender:"@) {
            let name = r.skip("sender:"@.len() as int);
            if name.len() == 0 {
                Err(msg_sender_empty())
            } else {
                Ok(EntryV::Sender(lower_seq(name)))
            }
        } else if has_prefix(r, "args:"@) {
            match parse_args_pieces(split_commas(r.skip("args:"@.len() as int))) {
                Ok(a) => Ok(EntryV::Arguments(a)),
                Err(m) => Err(m),
            }
        } else if has_prefix(r, "no-run:"@) {
            match parse_stages_pieces(split_commas(r.skip("no-run:"@.len() as int))) {
                Ok(v) => Ok(EntryV::DisableStages(v)),
                Err(m) => Err(m),
            }
        } else if has_prefix(r, "max-gas:"@) {
            let t = r.skip("max-gas:"@.len() as int);
            if is_u64_literal(t) {
                Ok(EntryV::MaxGas(dec_val(dec_body(t)) as u64))
            } else {
                Err(msg_bad_u64(t))
            }
        } else if has_prefix(r, "sequence-number:"@) {
            let t = r.skip("sequence-number:"@.len() as int);
            if is_u64_literal(t) {
                Ok(EntryV::SequenceNumber(dec_val(dec_body(t)) as u64))
            } else {
                Err(msg_bad_u64(t))
            }
        } else {
            Err(msg_not_entry(r))
        }
    }
}

impl Entry {
    /// Parses one raw directive line.
    #[verifier::loop_isolation(false)]
    pub fn from_str(s: &str) -> (r: Result<Entry, Error>)
        ensures
            r matches Ok(e) ==> parse_entry_spec(s@) == Ok::<EntryV, Seq<char>>(e@),
            r matches Err(e) ==> parse_entry_spec(s@) == Err::<EntryV, Seq<char>>(e@),
    {
        let cleaned = collapse_ws(s);
        let cs = cleaned.as_str();
        let ghost c = strip_ws(s@);
        if !starts_with(cs, "//!") {
            return Err(Error::plain("txn config entry must start with //!"));
        }
        let n = cs.unicode_len();
        proof {
            reveal_strlit("//!");
            reveal_strlit("sender:");
            reveal_strlit("args:");
            reveal_strlit("no-run:");
            reveal_strlit("max-gas:");
            reveal_strlit("sequence-number:");
            assert("//!"@.len() == 3 && "sender:"@.len() == 7 && "args:"@.len() == 5
                && "no-run:"@.len() == 7 && "max-gas:"@.len() == 8 && "sequence-number:"@.len()
                == 16);
        }
        let rest = cs.substring_char(3, n);
        let ghost r = c.skip(3);
        proof {
            assert(rest@ =~= r);
        }
        let m = rest.unicode_len();
        if starts_with(rest, "sender:") {
            let name = rest.substring_char(7, m);
            proof {
                assert(name@ =~= r.skip(7));
            }
            if name.unicode_len() == 0 {
                Err(Error::plain("sender cannot be empty"))
            } else {
                Ok(Entry::Sender(to_ascii_lower(name)))
            }
        } else if starts_with(rest, "args:") {
            let tail = rest.substring_char(5, m);
            proof {
                assert(tail@ =~= r.skip(5));
            }
            let pieces = split_at_commas(tail);
            let ghost ps = split_commas(tail@);
            let mut parsed: Vec<Argument> = Vec::new();
            let mut i: usize = 0;
            proof {
                assert(ps.skip(0) =~= ps);
                assert(parsed@.map_values(|a: Argument| a@) =~= Seq::<ArgumentV>::empty());
                assert(parse_args_pieces(ps) == (match parse_args_pieces(ps.skip(0)) {
                    Ok(t) => Ok::<Seq<ArgumentV>, Seq<char>>(
                        parsed@.map_values(|a: Argument| a@) + t,
                    ),
                    Err(m) => Err::<Seq<ArgumentV>, Seq<char>>(m),
                }));
            }
            while i < pieces.len()
                invariant
                    pieces.deep_view() == ps,
                    0 <= i <= pieces.len(),
                    parse_args_pieces(ps) == (match parse_args_pieces(ps.skip(i as int)) {
                        Ok(t) => Ok::<Seq<ArgumentV>, Seq<char>>(
                            parsed@.map_values(|a: Argument| a@) + t,
                        ),
                        Err(m) => Err::<Seq<ArgumentV>, Seq<char>>(m),
                    }),
                decreases pieces.len() - i,
            {
                let piece = &pieces[i];
                proof {
                    assert(ps.skip(i as int).first() == piece@);
                    assert(ps.skip(i as int).drop_first() =~= ps.skip(i + 1 as int));
                }
                if piece.as_str().unicode_len() == 0 {
                    i = i + 1;
                    continue ;
                }
                match Argument::from_str(piece.as_str()) {
                    Ok(a) => {
                        let ghost before = parsed@.map_values(|x: Argument| x@);
                        parsed.push(a);
                        proof {
                            assert(parsed@.map_values(|x: Argument| x@) =~= before.push(a@));
                            match parse_args_pieces(ps.skip(i + 1 as int)) {
                                Ok(t) => {
                                    assert(before + (seq![a@] + t) =~= before.push(a@) + t);
                                },
                                Err(_) => {},
                            }
                        }
                        i = i + 1;
                    },
                    Err(e) => {
                        return Err(e);
                    },
                }
            }
            proof {
                assert(ps.skip(pieces@.len() as int) =~= Seq::<Seq<char>>::empty());
                assert(parsed@.map_values(|a: Argument| a@) + Seq::<ArgumentV>::empty() =~= parsed@.map_values(
                    |a: Argument| a@,
                ));
            }
            Ok(Entry::Arguments(parsed))
        } else if starts_with(rest, "no-run:") {
            let tail = rest.substring_char(7, m);
            proof {
                assert(tail@ =~= r.skip(7));
            }
            let pieces = split_at_commas(tail);
            let ghost ps = split_commas(tail@);
            let mut stages: Vec<Stage> = Vec::new();
            let mut i: usize = 0;
            proof {
                assert(ps.skip(0) =~= ps);
                assert(parse_stages_pieces(ps) == (match parse_stages_pieces(ps.skip(0)) {
                    Ok(t) => Ok::<Seq<Stage>, Seq<char>>(stages@ + t),
                    Err(m) => Err::<Seq<Stage>, Seq<char>>(m),
                }));
            }
            while i < pieces.len()
                invariant
                    pieces.deep_view() == ps,
                    0 <= i <= pieces.len(),
                    parse_stages_pieces(ps) == (match parse_stages_pieces(ps.skip(i as int)) {
                        Ok(t) => Ok::<Seq<Stage>, Seq<char>>(stages@ + t),
                        Err(m) => Err::<Seq<Stage>, Seq<char>>(m),
                    }),
                decreases pieces.len() - i,
            {
                let piece = &pieces[i];
                proof {
                    assert(ps.skip(i as int).first() == piece@);
                    assert(ps.skip(i as int).drop_first() =~= ps.skip(i + 1 as int));
                }
                if piece.as_str().unicode_len() == 0 {
                    i = i + 1;
                    continue ;
                }
                match Stage::parse(piece.as_str()) {
                    Some(st) => {
                        let ghost before = stages@;
                        stages.push(st);
                        proof {
                            match parse_stages_pieces(ps.skip(i + 1 as int)) {
                                Ok(t) => {
                                    assert(before + (seq![st] + t) =~= before.push(st) + t);
                                },
                                Err(_) => {},
                            }
                        }
                        i = i + 1;
                    },
                    None => {
                        return Err(Error::around("unrecognized stage '", piece.as_str(), "'"));
                    },
                }
            }
            proof {
                assert(ps.skip(pieces@.len() as int) =~= Seq::<Seq<char>>::empty());
                assert(stages@ + Seq::<Stage>::empty() =~= stages@);
            }
            Ok(Entry::DisableStages(stages))
        } else if starts_with(rest, "max-gas:") {
            let tok = rest.substring_char(8, m);
            proof {
                assert(tok@ =~= r.skip(8));
            }
            match parse_u64(tok) {
                Some(v) => Ok(Entry::MaxGas(v)),
                None => Err(Error::around("cannot parse '", tok, "' as u64")),
            }
        } else if starts_with(rest, "sequence-number:") {
            let tok = rest.substring_char(16, m);
            proof {
                assert(tok@ =~= r.skip(16));
            }
            match parse_u64(tok) {
                Some(v) => Ok(Entry::SequenceNumber(v)),
                None => Err(Error::around("cannot parse '", tok, "' as u64")),
            }
        } else {
            Err(Error::around("failed to parse '", rest, "' as transaction config entry"))
        }
    }

    /// Parses a line that may or may not be a directive: `None` for a line
    /// that does not open with the raw marker `//!`, otherwise the full
    /// parse with its errors surfaced.
    pub fn try_parse(s: &str) -> (r: Result<Option<Entry>, Error>)
        ensures
            !has_prefix(s@, "//!"@) ==> (r matches Ok(o) && o is None),
            has_prefix(s@, "//!"@) ==> match r {
                Ok(o) => o matches Some(e) && parse_entry_spec(s@) == Ok::<EntryV, Seq<char>>(
                    e@,
                ),
                Err(e) => parse_entry_spec(s@) == Err::<EntryV, Seq<char>>(e@),
            },
    {
        if starts_with(s, "//!") {
            match Entry::from_str(s) {
                Ok(e) => Ok(Some(e)),
                Err(e) => Err(e),
            }
        } else {
            Ok(None)
        }
    }
}

/// Whether the line, trimmed at both ends, reads `//!` followed only by
/// whitespace and the token `new-transaction`. Internal whitespace is not
/// collapsed here: boundary detection trims only.
pub open spec fn is_new_transaction_spec(s: Seq<char>) -> bool {
    let t = trimmed(s);
    has_prefix(t, "//!"@) && trim_front(t.skip("//!"@.len() as int)) == "new-transaction"@
}

/// Checks whether a line denotes the start of a new transaction.
pub fn is_new_transaction(s: &str) -> (b: bool)
    ensures
        b == is_new_transaction_spec(s@),
{
    let t = trim(s);
    if !starts_with(t, "//!") {
        return false;
    }
    proof {
        reveal_strlit("//!");
    }
    let n = t.unicode_len();
    let rest = t.substring_char(3, n);
    proof {
        assert(rest@ =~= trimmed(s@).skip(3));
    }
    let m = rest.unicode_len();
    let mut i: usize = 0;
    while i < m && ws_char(rest.get_char(i))
        invariant
            m == rest@.len(),
            0 <= i <= m,
            forall|k: int| 0 <= k < i ==> is_ws_char(rest@[k]),
        decreases m - i,
    {
        i = i + 1;
    }
    proof {
        if i < m {
            lemma_trim_front_at(rest@, i as int);
        } else {
            lemma_trim_front_at(rest@, m as int);
        }
    }
    str_eq(rest.substring_char(i, m), "new-transaction")
}

/// Whenever the external typed-literal grammar accepts a token, the
/// argument parser returns exactly that value, self-contained: the
/// literal grammar always takes priority over the symbolic form.
pub proof fn lemma_literal_priority(t: Seq<char>, v: ArgValue)
    requires
        literal_of(t) == Some(v),
    ensures
        parse_argument_spec(t) == Ok::<ArgumentV, Seq<char>>(ArgumentV::SelfContained(v)),
{
}

/// Every token of the symbolic form `{{name}}` parses as `AddressOf(name)`:
/// the typed-literal grammar owns no token that opens with `{`, so the
/// symbolic reading is always reached.
pub proof fn lemma_symbolic_reference(t: Seq<char>)
    requires
        has_prefix(t, "{{"@),
        has_suffix(t, "}}"@),
    ensures
        parse_argument_spec(t) == Ok::<ArgumentV, Seq<char>>(
            ArgumentV::AddressOf(t.subrange(2, t.len() - 2)),
        ),
{
    reveal_strlit("{{");
    assert(t.subrange(0, 2)[0] == '{');
    assert(t[0] == '{');
}

} // verus!
