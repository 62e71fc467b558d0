//! The per-transaction configuration table, folded from the parsed
//! entries of one block against the global account registry.
use vstd::prelude::*;

use crate::entry::Argument;
use crate::entry::ArgumentV;
use crate::entry::Entry;
use crate::entry::EntryV;
use crate::errors::Error;
use crate::errors::msg_account_missing;
use crate::errors::msg_args_set;
use crate::errors::msg_duplicate_stage;
use crate::errors::msg_max_gas_set;
use crate::errors::msg_sender_set;
use crate::errors::msg_sequence_number_set;
use crate::stage::Stage;
use crate::stage::stage_token;
use crate::text::str_eq;
use crate::value::AccountAddress;
use crate::value::ArgValue;
use crate::value::TransactionArgument;

verus! {

/// The data registered for one account; it exposes the account's address.
#[derive(Debug)]
pub struct AccountData {
    pub address: AccountAddress,
}

impl View for AccountData {
    type V = Seq<u8>;

    open spec fn view(&self) -> Seq<u8> {
        self.address@
    }
}

impl AccountData {
    /// The address of the account.
    pub fn address(&self) -> (a: &AccountAddress)
        ensures
            a@ == self@,
    {
        &self.address
    }
}

/// One name-to-account binding of the registry.
#[derive(Debug)]
pub struct AccountBinding {
    pub name: String,
    pub data: AccountData,
}

/// The mapping that a sequence of bindings denotes: a later binding of the
/// same name wins, as repeated map insertion would leave it.
pub open spec fn table_map(s: Seq<AccountBinding>) -> Map<Seq<char>, Seq<u8>>
    decreases s.len(),
{
    if s.len() == 0 {
        Map::empty()
    } else {
        table_map(s.drop_last()).insert(s.last().name@, s.last().data@)
    }
}

/// A name-to-account registry, read by the builder.
#[derive(Debug)]
pub struct AccountTable {
    pub bindings: Vec<AccountBinding>,
}

impl View for AccountTable {
    type V = Map<Seq<char>, Seq<u8>>;

    open spec fn view(&self) -> Map<Seq<char>, Seq<u8>> {
        table_map(self.bindings@)
    }
}

impl AccountTable {
    /// An empty registry.
    pub fn new() -> (t: AccountTable)
        ensures
            t@ == Map::<Seq<char>, Seq<u8>>::empty(),
    {
        AccountTable { bindings: Vec::new() }
    }

    /// Registers an account, replacing any earlier binding of the name.
    pub fn insert(&mut self, name: String, data: AccountData)
        ensures
            final(self)@ == old(self)@.insert(name@, data@),
    {
        let ghost before = self.bindings@;
        self.bindings.push(AccountBinding { name, data });
        proof {
            assert(self.bindings@.drop_last() =~= before);
        }
    }

    /// Whether an account of this name is registered.
    #[verifier::loop_isolation(false)]
    pub fn contains_key(&self, name: &str) -> (b: bool)
        ensures
            b == self@.contains_key(name@),
    {
        let mut i = self.bindings.len();
        proof {
            assert(self.bindings@.subrange(0, self.bindings@.len() as int) =~= self.bindings@);
        }
        while i > 0
            invariant
                0 <= i <= self.bindings.len(),
                self@.contains_key(name@) == table_map(
                    self.bindings@.subrange(0, i as int),
                ).contains_key(name@),
            decreases i,
        {
            proof {
                assert(self.bindings@.subrange(0, i as int).drop_last() =~= self.bindings@.subrange(
                    0,
                    i - 1,
                ));
            }
            if str_eq(self.bindings[i - 1].name.as_str(), name) {
                return true;
            }
            i = i - 1;
        }
        proof {
            assert(self.bindings@.subrange(0, 0) =~= Seq::<AccountBinding>::empty());
        }
        false
    }

    /// The account registered under this name, if any.
    #[verifier::loop_isolation(false)]
    pub fn get(&self, name: &str) -> (r: Option<&AccountData>)
        ensures
            r matches Some(d) ==> self@.contains_key(name@) && d@ == self@[name@],
            r is None ==> !self@.contains_key(name@),
    {
        let mut i = self.bindings.len();
        proof {
            assert(self.bindings@.subrange(0, self.bindings@.len() as int) =~= self.bindings@);
        }
        while i > 0
            invariant
                0 <= i <= self.bindings.len(),
                self@.contains_key(name@) == table_map(
                    self.bindings@.subrange(0, i as int),
                ).contains_key(name@),
                self@.contains_key(name@) ==> self@[name@] == table_map(
                    self.bindings@.subrange(0, i as int),
                )[name@],
            decreases i,
        {
            proof {
                assert(self.bindings@.subrange(0, i as int).drop_last() =~= self.bindings@.subrange(
                    0,
                    i - 1,
                ));
            }
            if str_eq(self.bindings[i - 1].name.as_str(), name) {
                return Some(&self.bindings[i - 1].data);
            }
            i = i - 1;
        }
        proof {
            assert(self.bindings@.subrange(0, 0) =~= Seq::<AccountBinding>::empty());
        }
        None
    }
}

/// The global configuration read by the builder: the two account
/// registries, regular and genesis.
#[derive(Debug)]
pub struct GlobalConfig {
    pub accounts: AccountTable,
    pub genesis_accounts: AccountTable,
}

/// The mathematical value of a [`GlobalConfig`].
pub struct GlobalConfigV {
    pub accounts: Map<Seq<char>, Seq<u8>>,
    pub genesis_accounts: Map<Seq<char>, Seq<u8>>,
}

impl View for GlobalConfig {
    type V = GlobalConfigV;

    open spec fn view(&self) -> GlobalConfigV {
        GlobalConfigV { accounts: self.accounts@, genesis_accounts: self.genesis_accounts@ }
    }
}

/// The fold state of one build: every option still unset at the start.
pub struct BuildState {
    pub disabled: Set<Stage>,
    pub sender: Option<Seq<char>>,
    pub args: Option<Seq<ArgValue>>,
    pub max_gas: Option<u64>,
    pub sequence_number: Option<u64>,
}

/// The state a build starts from.
pub open spec fn init_state() -> BuildState {
    BuildState {
        disabled: Set::empty(),
        sender: None,
        args: None,
        max_gas: None,
        sequence_number: None,
    }
}

/// Disables the stages of one `no-run:` directive in order, failing on
/// the first stage already disabled.
pub open spec fn add_stages(disabled: Set<Stage>, stages: Seq<Stage>) -> Result<
    Set<Stage>,
    Seq<char>,
>
    decreases stages.len(),
{
    if stages.len() == 0 {
        Ok(disabled)
    } else if disabled.contains(stages.first()) {
        Err(msg_duplicate_stage(stage_token(stages.first())))
    } else {
        add_stages(disabled.insert(stages.first()), stages.drop_first())
    }
}

/// Resolves the arguments of one `args:` directive in order: a symbolic
/// reference becomes the address of the named regular account, a
/// self-contained literal passes through unchanged.
pub open spec fn resolve_args(accounts: Map<Seq<char>, Seq<u8>>, raw: Seq<ArgumentV>) -> Result<
    Seq<ArgValue>,
    Seq<char>,
>
    decreases raw.len(),
{
    if raw.len() == 0 {
        Ok(Seq::empty())
    } else {
        let head = match raw.first() {
            ArgumentV::AddressOf(name) => if accounts.contains_key(name) {
                Ok(ArgValue::Address(accounts[name]))
            } else {
                Err(msg_account_missing(name))
            },
            ArgumentV::SelfContained(v) => Ok(v),
        };
        match head {
            Err(m) => Err(m),
            Ok(v) => match resolve_args(accounts, raw.drop_first()) {
                Err(m) => Err(m),
                Ok(tail) => Ok(seq![v] + tail),
            },
        }
    }
}

/// Applies one entry to the fold state: each single-valued option may be
/// set at most once, a sender must be registered in one of the two
/// registries, and a stage may be disabled only once.
pub open spec fn apply_entry(g: GlobalConfigV, st: BuildState, e: EntryV) -> Result<
    BuildState,
    Seq<char>,
> {
    match e {
        EntryV::Sender(name) => match st.sender {
            Some(_) => Err(msg_sender_set()),
            None => if g.accounts.contains_key(name) || g.genesis_accounts.contains_key(name) {
                Ok(BuildState { sender: Some(name), ..st })
            } else {
                Err(msg_account_missing(name))
            },
        },
        EntryV::Arguments(raw) => match st.args {
            Some(_) => Err(msg_args_set()),
            None => match resolve_args(g.accounts, raw) {
                Ok(a) => Ok(BuildState { args: Some(a), ..st }),
                Err(m) => Err(m),
            },
        },
        EntryV::DisableStages(ss) => match add_stages(st.disabled, ss) {
            Ok(d) => Ok(BuildState { disabled: d, ..st }),
            Err(m) => Err(m),
        },
        EntryV::MaxGas(n) => match st.max_gas {
            Some(_) => Err(msg_max_gas_set()),
            None => Ok(BuildState { max_gas: Some(n), ..st }),
        },
        EntryV::SequenceNumber(n) => match st.sequence_number {
            Some(_) => Err(msg_sequence_number_set()),
            None => Ok(BuildState { sequence_number: Some(n), ..st }),
        },
    }
}

/// Folds the entries in order, failing fast on the first violation.
pub open spec fn build_fold(g: GlobalConfigV, st: BuildState, entries: Seq<EntryV>) -> Result<
    BuildState,
    Seq<char>,
>
    decreases entries.len(),
{
    if entries.len() == 0 {
        Ok(st)
    } else {
        match apply_entry(g, st, entries.first()) {
            Err(m) => Err(m),
            Ok(st2) => build_fold(g, st2, entries.drop_first()),
        }
    }
}

/// The mathematical value of a finished [`Config`].
pub struct ConfigV {
    pub disabled_stages: Set<Stage>,
    pub sender: Seq<char>,
    pub args: Seq<ArgValue>,
    pub max_gas: Option<u64>,
    pub sequence_number: Option<u64>,
}

/// Closes the fold state: the sender defaults to `default`, the argument
/// list to empty; the two numeric options stay unset.
pub open spec fn finalize(st: BuildState) -> ConfigV {
    ConfigV {
        disabled_stages: st.disabled,
        sender: match st.sender {
            Some(n) => n,
            None => "default"@,
        },
        args: match st.args {
            Some(a) => a,
            None => Seq::empty(),
        },
        max_gas: st.max_gas,
        sequence_number: st.sequence_number,
    }
}

/// What building a block from its entries yields.
pub open spec fn build_spec(g: GlobalConfigV, entries: Seq<EntryV>) -> Result<ConfigV, Seq<char>> {
    match build_fold(g, init_state(), entries) {
        Ok(st) => Ok(finalize(st)),
        Err(m) => Err(m),
    }
}

/// A table of options specific to one transaction, fine tweaking how the
/// transaction is handled by the testing infra.
#[derive(Debug)]
pub struct Config {
    pub disabled_stages: Vec<Stage>,
    pub sender: String,
    pub args: Vec<TransactionArgument>,
    pub max_gas: Option<u64>,
    pub sequence_number: Option<u64>,
}

impl View for Config {
    type V = ConfigV;

    open spec fn view(&self) -> ConfigV {
        ConfigV {
            disabled_stages: self.disabled_stages@.to_set(),
            sender: self.sender@,
            args: self.args@.map_values(|a: TransactionArgument| a@),
            max_gas: self.max_gas,
            sequence_number: self.sequence_number,
        }
    }
}

/// Whether the sequence of stages holds `st`.
fn stage_list_contains(v: &Vec<Stage>, st: Stage) -> (b: bool)
    ensures
        b == v@.contains(st),
{
    let mut i: usize = 0;
    while i < v.len()
        invariant
            0 <= i <= v.len(),
            forall|k: int| 0 <= k < i ==> v@[k] != st,
        decreases v.len() - i,
    {
        if v[i] == st {
            proof {
                assert(v@[i as int] == st);
            }
            return true;
        }
        i = i + 1;
    }
    false
}

/// The fold state that the builder's locals denote.
pub open spec fn local_state(
    disabled: Seq<Stage>,
    sender: Option<String>,
    args: Option<Vec<TransactionArgument>>,
    max_gas: Option<u64>,
    sequence_number: Option<u64>,
) -> BuildState {
    BuildState {
        disabled: disabled.to_set(),
        sender: match sender {
            Some(s) => Some(s@),
            None => None,
        },
        args: match args {
            Some(v) => Some(v@.map_values(|a: TransactionArgument| a@)),
            None => None,
        },
        max_gas: max_gas,
        sequence_number: sequence_number,
    }
}

impl Config {
    /// Builds a transaction config table from raw entries.
    #[verifier::loop_isolation(false)]
    pub fn build(config: &GlobalConfig, entries: &[Entry]) -> (r: Result<Config, Error>)
        ensures
            r matches Ok(c) ==> build_spec(config@, entries@.map_values(|e: Entry| e@))
                == Ok::<ConfigV, Seq<char>>(c@),
            r matches Err(e) ==> build_spec(config@, entries@.map_values(|e: Entry| e@))
                == Err::<ConfigV, Seq<char>>(e@),
    {
        let ghost g = config@;
        let ghost evs = entries@.map_values(|e: Entry| e@);
        let mut disabled: Vec<Stage> = Vec::new();
        let mut sender: Option<String> = None;
        let mut args: Option<Vec<TransactionArgument>> = None;
        let mut max_gas: Option<u64> = None;
        let mut sequence_number: Option<u64> = None;
        proof {
            assert(Seq::<Stage>::empty().to_set() =~= Set::<Stage>::empty());
            assert(local_state(disabled@, sender, args, max_gas, sequence_number) == init_state());
            assert(evs.skip(0) =~= evs);
        }
        let n = entries.len();
        let mut i: usize = 0;
        while i < n
            invariant
                0 <= i <= n,
                n == entries@.len(),
                build_fold(g, init_state(), evs) == build_fold(
                    g,
                    local_state(disabled@, sender, args, max_gas, sequence_number),
                    evs.skip(i as int),
                ),
            decreases n - i,
        {
            let ghost cur = local_state(disabled@, sender, args, max_gas, sequence_number);
            proof {
                assert(evs.skip(i as int).first() == evs[i as int]);
                assert(evs[i as int] == entries@[i as int]@);
                assert(evs.skip(i as int).drop_first() =~= evs.skip(i + 1 as int));
            }
            match &entries[i] {
                Entry::Sender(name) => {
                    if sender.is_some() {
                        return Err(Error::plain("sender already set"));
                    }
                    if config.accounts.contains_key(name.as_str())
                        || config.genesis_accounts.contains_key(name.as_str()) {
                        sender = Some(name.clone());
                    } else {
                        return Err(Error::around("account '", name.as_str(), "' does not exist"));
                    }
                },
                Entry::Arguments(raw) => {
                    if args.is_some() {
                        return Err(Error::plain("transaction arguments already set"));
                    }
                    let ghost rawv = raw@.map_values(|a: Argument| a@);
                    let mut resolved: Vec<TransactionArgument> = Vec::new();
                    let mut j: usize = 0;
                    proof {
                        assert(rawv.skip(0) =~= rawv);
                        assert(resolved@.map_values(|a: TransactionArgument| a@) =~= Seq::<
                            ArgValue,
                        >::empty());
                    }
                    while j < raw.len()
                        invariant
                            0 <= j <= raw.len(),
                            resolve_args(g.accounts, rawv) == (match resolve_args(
                                g.accounts,
                                rawv.skip(j as int),
                            ) {
                                Ok(t) => Ok::<Seq<ArgValue>, Seq<char>>(
                                    resolved@.map_values(|a: TransactionArgument| a@) + t,
                                ),
                                Err(m) => Err::<Seq<ArgValue>, Seq<char>>(m),
                            }),
                        decreases raw.len() - j,
                    {
                        proof {
                            assert(rawv.skip(j as int).first() == rawv[j as int]);
                            assert(rawv[j as int] == raw@[j as int]@);
                            assert(rawv.skip(j as int).drop_first() =~= rawv.skip(j + 1 as int));
                        }
                        let ghost before = resolved@.map_values(|a: TransactionArgument| a@);
                        match &raw[j] {
                            Argument::AddressOf(name) => {
                                match config.accounts.get(name.as_str()) {
                                    Some(data) => {
                                        resolved.push(
                                            TransactionArgument::Address(data.address().clone()),
                                        );
                                    },
                                    None => {
                                        return Err(
                                            Error::around(
                                                "account '",
                                                name.as_str(),
                                                "' does not exist",
                                            ),
                                        );
                                    },
                                }
                            },
                            Argument::SelfContained(arg) => {
                                resolved.push(arg.clone());
                            },
                        }
                        proof {
                            let pushed = resolved@.map_values(|a: TransactionArgument| a@);
                            assert(pushed =~= before.push(pushed.last()));
                            match resolve_args(g.accounts, rawv.skip(j + 1 as int)) {
                                Ok(t) => {
                                    assert(before + (seq![pushed.last()] + t) =~= pushed + t);
                                },
                                Err(_) => {},
                            }
                        }
                        j = j + 1;
                    }
                    proof {
                        assert(rawv.skip(raw@.len() as int) =~= Seq::<ArgumentV>::empty());
                        assert(resolved@.map_values(|a: TransactionArgument| a@) + Seq::<
                            ArgValue,
                        >::empty() =~= resolved@.map_values(|a: TransactionArgument| a@));
                    }
                    args = Some(resolved);
                },
                Entry::DisableStages(stages) => {
                    let ghost start = disabled@.to_set();
                    let mut k: usize = 0;
                    proof {
                        assert(stages@.skip(0) =~= stages@);
                    }
                    while k < stages.len()
                        invariant
                            0 <= k <= stages.len(),
                            add_stages(start, stages@) == add_stages(
                                disabled@.to_set(),
                                stages@.skip(k as int),
                            ),
                        decreases stages.len() - k,
                    {
                        proof {
                            assert(stages@.skip(k as int).first() == stages@[k as int]);
                            assert(stages@.skip(k as int).drop_first() =~= stages@.skip(
                                k + 1 as int,
                            ));
                        }
                        let st = stages[k];
                        if stage_list_contains(&disabled, st) {
                            return Err(
                                Error::around("duplicate stage '", st.name(), "' in black list"),
                            );
                        }
                        let ghost dbefore = disabled@;
                        disabled.push(st);
                        proof {
                            broadcast use vstd::seq_lib::lemma_seq_contains_after_push;

                            assert(disabled@.to_set() =~= dbefore.to_set().insert(st));
                        }
                        k = k + 1;
                    }
                    proof {
                        assert(stages@.skip(stages@.len() as int) =~= Seq::<Stage>::empty());
                    }
                },
                Entry::MaxGas(v) => {
                    if max_gas.is_some() {
                        return Err(Error::plain("max gas amount already set"));
                    }
                    max_gas = Some(*v);
                },
                Entry::SequenceNumber(v) => {
                    if sequence_number.is_some() {
                        return Err(Error::plain("sequence number already set"));
                    }
                    sequence_number = Some(*v);
                },
            }
            proof {
                assert(apply_entry(g, cur, evs[i as int]) == Ok::<BuildState, Seq<char>>(
                    local_state(disabled@, sender, args, max_gas, sequence_number),
                ));
            }
            i = i + 1;
        }
        proof {
            assert(evs.skip(n as int) =~= Seq::<EntryV>::empty());
        }
        let sender_final = match sender {
            Some(s) => s,
            None => String::from_str("default"),
        };
        let args_final = match args {
            Some(v) => v,
            None => Vec::new(),
        };
        proof {
            if args is None {
                assert(Seq::<TransactionArgument>::empty().map_values(
                    |a: TransactionArgument| a@,
                ) =~= Seq::<ArgValue>::empty());
            }
        }
        Ok(
            Config {
                disabled_stages: disabled,
                sender: sender_final,
                args: args_final,
                max_gas,
                sequence_number,
            },
        )
    }

    /// Whether the transaction is excluded from the given stage.
    #[inline]
    pub fn is_stage_disabled(&self, stage: Stage) -> (b: bool)
        ensures
            b == self@.disabled_stages.contains(stage),
    {
        stage_list_contains(&self.disabled_stages, stage)
    }
}

} // verus!
