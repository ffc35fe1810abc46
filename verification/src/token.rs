//! Classification of raw command-line strings into typed tokens.
//!
//! A raw argument starting with `--` becomes one long flag; one starting
//! with a single `-` becomes one short flag per remaining character (so
//! `-abc` clusters into `a`, `b`, `c`); anything else is a value. Every
//! token carries its index in the flattened sequence and the sequence's
//! total length.

use vstd::prelude::*;

verus! {

/// A flag argument: short (`-x`) or long (`--name`), holding the flag name.
pub enum ArgumentType {
    Short(String),
    Long(String),
}

/// A classified unit of input: a flag or a bare value.
pub enum OptionType {
    Argument(ArgumentType),
    Value(String),
}

/// Mathematical model of an `OptionType`: the kind plus the text payload.
pub enum OptionModel {
    Short(Seq<char>),
    Long(Seq<char>),
    Value(Seq<char>),
}

impl OptionModel {
    /// The text payload, regardless of kind.
    pub open spec fn qualifier(self) -> Seq<char> {
        match self {
            OptionModel::Short(q) => q,
            OptionModel::Long(q) => q,
            OptionModel::Value(q) => q,
        }
    }
}

/// The command-line display form of a token: `-q` for a short flag,
/// `--q` for a long flag, the bare text for a value.
pub open spec fn display_of(o: OptionModel) -> Seq<char> {
    match o {
        OptionModel::Short(q) => seq!['-'] + q,
        OptionModel::Long(q) => seq!['-', '-'] + q,
        OptionModel::Value(q) => q,
    }
}

impl View for OptionType {
    type V = OptionModel;

    open spec fn view(&self) -> OptionModel {
        match self {
            OptionType::Argument(ArgumentType::Short(q)) => OptionModel::Short(q@),
            OptionType::Argument(ArgumentType::Long(q)) => OptionModel::Long(q@),
            OptionType::Value(q) => OptionModel::Value(q@),
        }
    }
}

/// Mathematical model of an `Argument`: its classification, its zero-based
/// index in the full token sequence, and that sequence's length.
pub struct TokenModel {
    pub option_type: OptionModel,
    pub position: nat,
    pub max_position: nat,
}

/// An immutable classified token, annotated with its position in the full
/// token sequence and the sequence's total length.
pub struct Argument {
    option_type: OptionType,
    position: usize,
    max_position: usize,
}

impl View for Argument {
    type V = TokenModel;

    closed spec fn view(&self) -> TokenModel {
        TokenModel {
            option_type: self.option_type@,
            position: self.position as nat,
            max_position: self.max_position as nat,
        }
    }
}

impl Argument {
    /// Every token's position lies below the total count.
    #[verifier::type_invariant]
    pub closed spec fn wf(self) -> bool {
        self.position < self.max_position
    }

    /// The flag name or value text of this token.
    pub fn qualifier(&self) -> (r: &str)
        ensures
            r@ == self@.option_type.qualifier(),
    {
        match &self.option_type {
            OptionType::Argument(ArgumentType::Short(q)) => q.as_str(),
            OptionType::Argument(ArgumentType::Long(q)) => q.as_str(),
            OptionType::Value(q) => q.as_str(),
        }
    }

    /// The token's classification.
    pub fn option_type(&self) -> (r: &OptionType)
        ensures
            r@ == self@.option_type,
    {
        &self.option_type
    }

    pub fn is_short(&self) -> (r: bool)
        ensures
            r == (self@.option_type is Short),
    {
        matches!(&self.option_type, OptionType::Argument(ArgumentType::Short(_)))
    }

    pub fn is_long(&self) -> (r: bool)
        ensures
            r == (self@.option_type is Long),
    {
        matches!(&self.option_type, OptionType::Argument(ArgumentType::Long(_)))
    }

    pub fn is_value(&self) -> (r: bool)
        ensures
            r == (self@.option_type is Value),
    {
        matches!(&self.option_type, OptionType::Value(_))
    }

    /// Zero-based index of this token in the full token sequence.
    pub fn position(&self) -> (r: usize)
        ensures
            r == self@.position,
    {
        self.position
    }

    /// Total number of tokens in the sequence this token came from.
    pub fn max_position(&self) -> (r: usize)
        ensures
            r == self@.max_position,
    {
        self.max_position
    }

    /// Distance from the last token: zero for the last token itself.
    pub fn from_last(&self) -> (r: usize)
        ensures
            r == self@.max_position - 1 - self@.position,
    {
        proof {
            use_type_invariant(self);
        }
        (self.max_position - 1) - self.position
    }

    pub fn is_n_from_last(&self, n: usize) -> (r: bool)
        ensures
            r == (self@.max_position - 1 - self@.position == n),
    {
        self.from_last() == n
    }

    pub fn is_last(&self) -> (r: bool)
        ensures
            r == (self@.position == self@.max_position - 1),
    {
        self.is_n_from_last(0)
    }

    /// Distance from the first token: the position itself.
    pub fn from_first(&self) -> (r: usize)
        ensures
            r == self@.position,
    {
        self.position
    }

    pub fn is_n_from_first(&self, n: usize) -> (r: bool)
        ensures
            r == (self@.position == n),
    {
        self.from_first() == n
    }

    pub fn is_first(&self) -> (r: bool)
        ensures
            r == (self@.position == 0),
    {
        self.is_n_from_first(0)
    }

    /// The command-line display form of this token.
    pub fn display_string(&self) -> (r: String)
        ensures
            r@ == display_of(self@.option_type),
    {
        proof {
            reveal_strlit("-");
            reveal_strlit("--");
        }
        match &self.option_type {
            OptionType::Argument(ArgumentType::Short(q)) => {
                let r = String::from_str("-").concat(q.as_str());
                proof {
                    assert(r@ =~= seq!['-'] + q@);
                }
                r
            },
            OptionType::Argument(ArgumentType::Long(q)) => {
                let r = String::from_str("--").concat(q.as_str());
                proof {
                    assert(r@ =~= seq!['-', '-'] + q@);
                }
                r
            },
            OptionType::Value(q) => q.as_str().to_owned(),
        }
    }
}

/// The tokens one raw argument string expands to.
pub open spec fn classify(s: Seq<char>) -> Seq<OptionModel> {
    if s.len() >= 2 && s[0] == '-' && s[1] == '-' {
        seq![OptionModel::Long(s.subrange(2, s.len() as int))]
    } else if s.len() >= 1 && s[0] == '-' {
        Seq::new((s.len() - 1) as nat, |i: int| OptionModel::Short(seq![s[i + 1]]))
    } else {
        seq![OptionModel::Value(s)]
    }
}

/// The flattened token sequence of a whole raw argument list.
pub open spec fn classify_all(raws: Seq<Seq<char>>) -> Seq<OptionModel>
    decreases raws.len(),
{
    if raws.len() == 0 {
        Seq::empty()
    } else {
        classify_all(raws.drop_last()) + classify(raws.last())
    }
}

/// The full token models of a raw argument list: the flattened
/// classification, with each token's index and the total count.
pub open spec fn tokens_of(raws: Seq<Seq<char>>) -> Seq<TokenModel> {
    Seq::new(
        classify_all(raws).len(),
        |i: int|
            TokenModel {
                option_type: classify_all(raws)[i],
                position: i as nat,
                max_position: classify_all(raws).len(),
            },
    )
}

/// The views of a sequence of raw argument strings.
pub open spec fn string_views(raws: Seq<String>) -> Seq<Seq<char>> {
    raws.map_values(|s: String| s@)
}

/// The models of a sequence of classified options.
pub open spec fn opt_models(opts: Seq<OptionType>) -> Seq<OptionModel> {
    opts.map_values(|o: OptionType| o@)
}

/// The models of a sequence of tokens.
pub open spec fn arg_models(tokens: Seq<Argument>) -> Seq<TokenModel> {
    tokens.map_values(|a: Argument| a@)
}

proof fn lemma_opt_models_push(opts: Seq<OptionType>, o: OptionType)
    ensures
        opt_models(opts.push(o)) =~= opt_models(opts).push(o@),
{
    assert forall|k: int| 0 <= k < opts.len() + 1 implies #[trigger] opt_models(opts.push(o))[k]
        == opt_models(opts).push(o@)[k] by {
        if k < opts.len() {
            assert(opts.push(o)[k] == opts[k]);
        } else {
            assert(opts.push(o)[k] == o);
        }
    }
}

/// Converts a raw argument list into the flattened, position-annotated
/// token sequence: `--name` becomes one long flag, `-abc` becomes the
/// three short flags `a`, `b`, `c`, and anything else one value.
pub fn tokenize(raw: &Vec<String>) -> (tokens: Vec<Argument>)
    ensures
        arg_models(tokens@) == tokens_of(string_views(raw@)),
{
    let ghost all = string_views(raw@);
    let mut opts: Vec<OptionType> = Vec::new();
    let mut i: usize = 0;
    while i < raw.len()
        invariant
            i <= raw.len(),
            all == string_views(raw@),
            opt_models(opts@) == classify_all(all.take(i as int)),
        decreases raw.len() - i,
    {
        let s: &String = &raw[i];
        proof {
            assert(all[i as int] == s@);
        }
        let ghost before = opt_models(opts@);
        let n: usize = s.as_str().unicode_len();
        if n >= 2 && s.as_str().get_char(0) == '-' && s.as_str().get_char(1) == '-' {
            let q = s.as_str().substring_char(2, n).to_owned();
            let v = OptionType::Argument(ArgumentType::Long(q));
            let ghost gv = v;
            let ghost pre = opts@;
            opts.push(v);
            proof {
                lemma_opt_models_push(pre, gv);
                assert(opt_models(opts@) =~= before + classify(s@));
            }
        } else if n >= 1 && s.as_str().get_char(0) == '-' {
            let mut j: usize = 1;
            while j < n
                invariant
                    1 <= j <= n,
                    n == s@.len(),
                    s@[0] == '-',
                    !(s@.len() >= 2 && s@[1] == '-'),
                    opt_models(opts@) == before + Seq::new(
                        (j - 1) as nat,
                        |k: int| OptionModel::Short(seq![s@[k + 1]]),
                    ),
                decreases n - j,
            {
                let q = s.as_str().substring_char(j, j + 1).to_owned();
                proof {
                    assert(q@ =~= seq![s@[j as int]]);
                }
                let v = OptionType::Argument(ArgumentType::Short(q));
                let ghost gv = v;
                let ghost pre = opts@;
                opts.push(v);
                proof {
                    lemma_opt_models_push(pre, gv);
                    assert(opt_models(opts@) =~= before + Seq::new(
                        (j + 1 - 1) as nat,
                        |k: int| OptionModel::Short(seq![s@[k + 1]]),
                    ));
                }
                j += 1;
            }
            proof {
                assert(classify(s@) =~= Seq::new(
                    (n - 1) as nat,
                    |k: int| OptionModel::Short(seq![s@[k + 1]]),
                ));
                assert(opt_models(opts@) =~= before + classify(s@));
            }
        } else {
            let q = s.as_str().to_owned();
            let v = OptionType::Value(q);
            let ghost gv = v;
            let ghost pre = opts@;
            opts.push(v);
            proof {
                lemma_opt_models_push(pre, gv);
                assert(opt_models(opts@) =~= before + classify(s@));
            }
        }
        proof {
            assert(all.take(i as int + 1).drop_last() =~= all.take(i as int));
            assert(all.take(i as int + 1).last() == s@);
            assert(opt_models(opts@) =~= classify_all(all.take(i as int + 1)));
        }
        i += 1;
    }
    proof {
        assert(all.take(raw.len() as int) =~= all);
    }
    let total = opts.len();
    let ghost all_opts = opt_models(opts@);
    proof {
        assert forall|k: int| 0 <= k < opts@.len() implies (#[trigger] opts@[k])@
            == all_opts[k] by {
            assert(all_opts[k] == opt_models(opts@)[k]);
        }
    }
    let mut tokens: Vec<Argument> = Vec::new();
    while opts.len() > 0
        invariant
            total == all_opts.len(),
            tokens.len() + opts.len() == total,
            forall|k: int|
                0 <= k < opts@.len() ==> (#[trigger] opts@[k])@ == all_opts[tokens.len() + k],
            forall|k: int|
                0 <= k < tokens.len() ==> (#[trigger] tokens@[k])@ == (TokenModel {
                    option_type: all_opts[k],
                    position: k as nat,
                    max_position: total as nat,
                }),
        decreases opts.len(),
    {
        let ghost done = tokens.len() as int;
        let ghost pre = opts@;
        let o = opts.remove(0);
        proof {
            assert(o@ == all_opts[done]);
            assert forall|k: int| 0 <= k < opts@.len() implies (#[trigger] opts@[k])@
                == all_opts[done + 1 + k] by {
                assert(opts@[k] == pre[k + 1]);
            }
        }
        let a = Argument { option_type: o, position: tokens.len(), max_position: total };
        tokens.push(a);
    }
    proof {
        assert(classify_all(all) == all_opts);
        assert forall|k: int| 0 <= k < tokens@.len() implies #[trigger] arg_models(tokens@)[k]
            == tokens_of(all)[k] by {
            assert(arg_models(tokens@)[k] == tokens@[k]@);
        }
        assert(arg_models(tokens@) =~= tokens_of(all));
    }
    tokens
}

/// Law: in the token sequence of any raw argument list, every token's
/// recorded total equals the sequence's length, and the positions run
/// contiguously from zero upward, in order.
pub proof fn lemma_positions_contiguous(raws: Seq<Seq<char>>)
    ensures
        forall|i: int|
            0 <= i < tokens_of(raws).len() ==> (#[trigger] tokens_of(raws)[i]).position == i
                && tokens_of(raws)[i].max_position == tokens_of(raws).len(),
{
}

/// A raw string that clusters into short flags: a single leading dash.
pub open spec fn is_short_input(s: Seq<char>) -> bool {
    s.len() >= 1 && s[0] == '-' && !(s.len() >= 2 && s[1] == '-')
}

proof fn lemma_no_cluster_classify_all(raws: Seq<Seq<char>>)
    requires
        forall|i: int| 0 <= i < raws.len() ==> !is_short_input(#[trigger] raws[i]),
    ensures
        classify_all(raws).len() == raws.len(),
        forall|i: int|
            0 <= i < raws.len() ==> display_of(#[trigger] classify_all(raws)[i]) == raws[i],
    decreases raws.len(),
{
    if raws.len() > 0 {
        lemma_no_cluster_classify_all(raws.drop_last());
        let last = raws.last();
        if last.len() >= 2 && last[0] == '-' && last[1] == '-' {
            assert(display_of(classify(last)[0]) =~= last);
        }
        assert(forall|i: int|
            0 <= i < raws.len() - 1 ==> #[trigger] classify_all(raws)[i] == classify_all(
                raws.drop_last(),
            )[i]);
        assert(forall|i: int|
            0 <= i < raws.len() - 1 ==> raws.drop_last()[i] == #[trigger] raws[i]);
    }
}

/// Law: a raw argument list with no short-flag clusters round-trips. Each
/// raw string yields exactly one token, and rebuilding each token's display
/// form (`--` plus the qualifier for a long flag, the bare qualifier for a
/// value) reproduces the original list, element for element.
pub proof fn lemma_round_trip(raws: Seq<Seq<char>>)
    requires
        forall|i: int| 0 <= i < raws.len() ==> !is_short_input(#[trigger] raws[i]),
    ensures
        tokens_of(raws).len() == raws.len(),
        forall|i: int|
            0 <= i < raws.len() ==> display_of((#[trigger] tokens_of(raws)[i]).option_type)
                == raws[i],
{
    lemma_no_cluster_classify_all(raws);
}

} // verus!
