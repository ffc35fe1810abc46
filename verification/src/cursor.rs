//! The forward-only cursor over tokens and the callback-driving loop.
//!
//! `with_args` tokenizes a raw argument list and invokes a user callback
//! once per token. The callback receives the cursor by mutable reference,
//! so it can pull further tokens out of band — `enforce_next_value` is the
//! built-in helper for "this flag consumes the next token as its value".

use vstd::prelude::*;

use crate::token::Argument;
use crate::token::OptionType;
use crate::token::TokenModel;
use crate::token::arg_models;
use crate::token::display_of;
use crate::token::string_views;
use crate::token::tokenize;
use crate::token::tokens_of;

verus! {

/// A failure reported while driving the token sequence, carrying a
/// human-readable message.
#[derive(Debug)]
pub struct ArgsError {
    message: String,
}

impl View for ArgsError {
    type V = Seq<char>;

    closed spec fn view(&self) -> Seq<char> {
        self.message@
    }
}

impl ArgsError {
    /// The failure's message text.
    pub fn message(&self) -> (r: &str)
        ensures
            r@ == self@,
    {
        self.message.as_str()
    }
}

/// Builds the failure arm of a result from a message.
pub fn err<T>(message: &str) -> (r: Result<T, ArgsError>)
    ensures
        r is Err && r->Err_0@ == message@,
{
    Err(ArgsError { message: message.to_owned() })
}

/// The message `enforce_next_value` fails with: the display form of the
/// flag that required a value, followed by `" requires a value."`.
pub open spec fn missing_value_message(prev: TokenModel) -> Seq<char> {
    display_of(prev.option_type) + " requires a value."@
}

/// The shape of one driving run, recorded as snapshots taken around each
/// callback invocation. `cursors[k]` and `states[k]` are the remaining
/// tokens and the state just before the `k`-th invocation, which popped
/// `cursors[k][0]` and returned `outs[k]`; `cursors[k + 1]` and
/// `states[k + 1]` are what it left behind. The run starts at the full
/// token sequence `toks` with state `state0`. Every invocation but the
/// last returned success; the run ends either with the cursor exhausted
/// and `r` a success (all invocations succeeded), or at the first failing
/// invocation, whose error is `r`. Either way `fin` is the state the last
/// invocation left — mutations made before a failure persist.
pub open spec fn drive_trace<T>(
    toks: Seq<TokenModel>,
    state0: T,
    cursors: Seq<Seq<TokenModel>>,
    states: Seq<T>,
    outs: Seq<Result<(), ArgsError>>,
    r: Result<(), ArgsError>,
    fin: T,
) -> bool {
    &&& cursors.len() == outs.len() + 1
    &&& states.len() == outs.len() + 1
    &&& cursors[0] == toks
    &&& states[0] == state0
    &&& forall|k: int| 0 <= k < outs.len() ==> (#[trigger] cursors[k]).len() > 0
    &&& forall|k: int| 0 <= k < outs.len() ==> (#[trigger] cursors[k + 1]).len() < cursors[k].len()
    &&& forall|k: int| 0 <= k < outs.len() - 1 ==> (#[trigger] outs[k]) is Ok
    &&& match r {
        Result::Ok(_) => {
            &&& forall|k: int| 0 <= k < outs.len() ==> (#[trigger] outs[k]) is Ok
            &&& cursors.last().len() == 0
            &&& fin == states.last()
        },
        Result::Err(e) => {
            &&& outs.len() > 0
            &&& outs.last() == Result::<(), ArgsError>::Err(e)
            &&& fin == states.last()
        },
    }
}

/// A consumable, forward-only sequence of remaining tokens.
pub struct Arguments {
    remaining: Vec<Argument>,
}

impl View for Arguments {
    type V = Seq<TokenModel>;

    closed spec fn view(&self) -> Seq<TokenModel> {
        arg_models(self.remaining@)
    }
}

impl Arguments {
    /// Tokenizes a raw argument list (program name already skipped) and
    /// positions the cursor on the first token.
    pub fn from_raw(raw: &Vec<String>) -> (r: Arguments)
        ensures
            r@ == tokens_of(string_views(raw@)),
    {
        Arguments { remaining: tokenize(raw) }
    }

    /// Pops the next token off the cursor, or `None` when exhausted.
    pub fn next_arg(&mut self) -> (r: Option<Argument>)
        ensures
            old(self)@.len() == 0 ==> r is None && final(self)@ == old(self)@,
            old(self)@.len() > 0 ==> final(self)@ == old(self)@.drop_first() && (r matches Some(
                a,
            ) && a@ == old(self)@[0]),
    {
        if self.remaining.len() == 0 {
            None
        } else {
            let ghost pre = self.remaining@;
            let a = self.remaining.remove(0);
            proof {
                assert(a@ == arg_models(pre)[0]);
                assert forall|k: int| 0 <= k < self.remaining@.len() implies #[trigger] arg_models(
                    self.remaining@,
                )[k] == arg_models(pre).drop_first()[k] by {
                    assert(self.remaining@[k] == pre[k + 1]);
                }
                assert(arg_models(self.remaining@) =~= arg_models(pre).drop_first());
            }
            Some(a)
        }
    }

    /// Pops the next token and demands it be a value: returns its text, or
    /// fails with a message naming the flag `prev` that required it when
    /// the cursor is exhausted or the popped token is itself a flag.
    pub fn enforce_next_value(&mut self, prev: &Argument) -> (r: Result<String, ArgsError>)
        ensures
            old(self)@.len() == 0 ==> final(self)@ == old(self)@,
            old(self)@.len() > 0 ==> final(self)@ == old(self)@.drop_first(),
            old(self)@.len() > 0 && old(self)@[0].option_type is Value ==> r is Ok && r->Ok_0@
                == old(self)@[0].option_type.qualifier(),
            old(self)@.len() == 0 || !(old(self)@[0].option_type is Value) ==> r is Err
                && r->Err_0@ == missing_value_message(prev@),
    {
        match self.next_arg() {
            Some(i) => match i.option_type() {
                OptionType::Value(_) => Ok(i.qualifier().to_owned()),
                _ => {
                    let msg = prev.display_string().concat(" requires a value.");
                    err(msg.as_str())
                },
            },
            None => {
                let msg = prev.display_string().concat(" requires a value.");
                err(msg.as_str())
            },
        }
    }

    /// Tokenizes a raw argument list and drives `do_while` over the tokens
    /// in order, handing it the cursor, the state, and the popped token.
    /// Stops at the first failure and propagates it; an empty token
    /// sequence succeeds without invoking the callback or touching the
    /// state. The whole run is pinned by a `drive_trace`: every invocation
    /// received the head of the remaining tokens, the cursor positioned
    /// just past it, and the state the previous invocation left; on
    /// success every token was consumed, and on failure the result is the
    /// first failing invocation's error and the state it left behind.
    /// Callbacks may consume tokens but never grow the cursor, which the
    /// second precondition states.
    #[verifier::loop_isolation(false)]
    pub fn with_args<T, F: Fn(&mut Arguments, &mut T, Argument) -> Result<(), ArgsError>>(
        raw: &Vec<String>,
        default: &mut T,
        do_while: F,
    ) -> (r: Result<(), ArgsError>)
        requires
            forall|a: &mut Arguments, t: &mut T, arg: Argument|
                call_requires(do_while, (a, t, arg)),
            forall|a: &mut Arguments, t: &mut T, arg: Argument, out: Result<(), ArgsError>|
                call_ensures(do_while, (a, t, arg), out) ==> (*final(a))@.len() <= (*a)@.len(),
        ensures
            tokens_of(string_views(raw@)).len() == 0 ==> r is Ok && *final(default) == *old(
                default,
            ),
            exists|cursors: Seq<Seq<TokenModel>>, states: Seq<T>, outs: Seq<Result<(), ArgsError>>|
                {
                    &&& #[trigger] drive_trace(
                        tokens_of(string_views(raw@)),
                        *old(default),
                        cursors,
                        states,
                        outs,
                        r,
                        *final(default),
                    )
                    &&& forall|k: int|
                        #![trigger cursors[k]]
                        0 <= k < outs.len() ==> {
                            &&& cursors[k].len() > 0
                            &&& exists|a: &mut Arguments, t: &mut T, g: Argument|
                                {
                                    &&& (*a)@ == cursors[k].drop_first()
                                    &&& *t == states[k]
                                    &&& g@ == cursors[k][0]
                                    &&& (*final(a))@ == cursors[k + 1]
                                    &&& *final(t) == states[k + 1]
                                    &&& #[trigger] call_ensures(do_while, (a, t, g), outs[k])
                                }
                        }
                },
            r is Err ==> exists|a: &mut Arguments, t: &mut T, arg: Argument|
                call_ensures(do_while, (a, t, arg), Result::<(), ArgsError>::Err(r->Err_0)),
    {
        let ghost init = tokens_of(string_views(raw@));
        let mut args = Arguments::from_raw(raw);
        let ghost mut cursors: Seq<Seq<TokenModel>> = seq![init];
        let ghost mut states: Seq<T> = seq![*default];
        let ghost mut outs: Seq<Result<(), ArgsError>> = Seq::empty();
        loop
            invariant
                forall|a: &mut Arguments, t: &mut T, arg: Argument|
                    call_requires(do_while, (a, t, arg)),
                forall|a: &mut Arguments, t: &mut T, arg: Argument, out: Result<(), ArgsError>|
                    call_ensures(do_while, (a, t, arg), out) ==> (*final(a))@.len()
                        <= (*a)@.len(),
                init == tokens_of(string_views(raw@)),
                init.len() == 0 ==> args@.len() == 0 && *default == *old(default),
                cursors.len() == outs.len() + 1,
                states.len() == outs.len() + 1,
                cursors[0] == init,
                states[0] == *old(default),
                cursors.last() == args@,
                states.last() == *default,
                forall|k: int| 0 <= k < outs.len() ==> (#[trigger] outs[k]) is Ok,
                forall|k: int|
                    0 <= k < outs.len() ==> (#[trigger] cursors[k + 1]).len() < cursors[k].len(),
                forall|k: int|
                    #![trigger cursors[k]]
                    0 <= k < outs.len() ==> {
                        &&& cursors[k].len() > 0
                        &&& exists|a: &mut Arguments, t: &mut T, g: Argument|
                            {
                                &&& (*a)@ == cursors[k].drop_first()
                                &&& *t == states[k]
                                &&& g@ == cursors[k][0]
                                &&& (*final(a))@ == cursors[k + 1]
                                &&& *final(t) == states[k + 1]
                                &&& #[trigger] call_ensures(do_while, (a, t, g), outs[k])
                            }
                    },
            decreases args@.len(),
        {
            let ghost cur = args@;
            let ghost st = *default;
            match args.next_arg() {
                None => {
                    proof {
                        assert(drive_trace(
                            tokens_of(string_views(raw@)),
                            *old(default),
                            cursors,
                            states,
                            outs,
                            Result::<(), ArgsError>::Ok(()),
                            *default,
                        ));
                    }
                    return Ok(());
                },
                Some(arg) => {
                    let res = do_while(&mut args, default, arg);
                    proof {
                        let ghost prior = outs.len() as int;
                        let ghost oc = cursors;
                        let ghost os = states;
                        let ghost oo = outs;
                        cursors = cursors.push(args@);
                        states = states.push(*default);
                        outs = outs.push(res);
                        assert(cursors[prior] == cur);
                        assert(states[prior] == st);
                        assert(cursors[prior + 1] == args@);
                        assert(states[prior + 1] == *default);
                        assert(outs[prior] == res);
                        assert forall|k: int|
                            #![trigger cursors[k]]
                            0 <= k < outs.len() implies {
                            &&& cursors[k].len() > 0
                            &&& exists|a: &mut Arguments, t: &mut T, g: Argument|
                                {
                                    &&& (*a)@ == cursors[k].drop_first()
                                    &&& *t == states[k]
                                    &&& g@ == cursors[k][0]
                                    &&& (*final(a))@ == cursors[k + 1]
                                    &&& *final(t) == states[k + 1]
                                    &&& #[trigger] call_ensures(do_while, (a, t, g), outs[k])
                                }
                        } by {
                            if k < prior {
                                assert(cursors[k] == oc[k]);
                                assert(cursors[k + 1] == oc[k + 1]);
                                assert(states[k] == os[k]);
                                assert(states[k + 1] == os[k + 1]);
                                assert(outs[k] == oo[k]);
                                assert(exists|a: &mut Arguments, t: &mut T, g: Argument|
                                    {
                                        &&& (*a)@ == oc[k].drop_first()
                                        &&& *t == os[k]
                                        &&& g@ == oc[k][0]
                                        &&& (*final(a))@ == oc[k + 1]
                                        &&& *final(t) == os[k + 1]
                                        &&& #[trigger] call_ensures(do_while, (a, t, g), oo[k])
                                    });
                            } else {
                                assert(cursors[k] == cur);
                                assert(cursors[k + 1] == args@);
                                assert(states[k] == st);
                                assert(states[k + 1] == *default);
                                assert(outs[k] == res);
                            }
                        }
                    }
                    match res {
                        Ok(_) => {},
                        Err(e) => {
                            proof {
                                assert(drive_trace(
                                    tokens_of(string_views(raw@)),
                                    *old(default),
                                    cursors,
                                    states,
                                    outs,
                                    Result::<(), ArgsError>::Err(e),
                                    *default,
                                ));
                            }
                            return Err(e);
                        },
                    }
                },
            }
        }
    }
}

} // verus!
