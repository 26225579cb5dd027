use vstd::prelude::*;
use crate::asset::{duplicate_pair, pair_view, spec_pair_key, AssetInfo, AssetSpec};
use crate::bytes::{bytes_clone, bytes_eq};
use crate::error::ContractError;
use crate::registry::{
    belongs_at, complete_outcome, lemma_position_unique, lookup, page_after, pending, place_of,
    position, recorded, registered, views, PairInfo, PairSpec, Registry,
};

verus! {

/// What the configuration is.
pub struct ConfigSpec {
    pub owner: Seq<u8>,
    pub token_code_id: u64,
    pub pair_code_ids: Seq<u64>,
}

/// The factory's configuration: the administrator's identity, the
/// implementation id of the liquidity-receipt token, and the implementation
/// ids from which a pair may be deployed.
#[derive(Clone, Debug, PartialEq, Eq)]
pub struct Config {
    pub owner: Vec<u8>,
    pub token_code_id: u64,
    pub pair_code_ids: Vec<u64>,
}

impl View for Config {
    type V = ConfigSpec;

    open spec fn view(&self) -> ConfigSpec {
        ConfigSpec {
            owner: self.owner@,
            token_code_id: self.token_code_id,
            pair_code_ids: self.pair_code_ids@,
        }
    }
}

/// The configuration as a query reports it.
#[derive(Clone, Debug, PartialEq, Eq)]
pub struct ConfigResponse {
    pub owner: Vec<u8>,
    pub token_code_id: u64,
    pub pair_code_ids: Vec<u64>,
}

/// One page of pair records.
#[derive(Clone, Debug, PartialEq, Eq)]
pub struct PairsResponse {
    pub pairs: Vec<PairInfo>,
}

/// A call that the caller wants made once the command has been carried out.
#[derive(Clone, Debug, PartialEq, Eq)]
pub struct InitHook {
    pub contract_addr: Vec<u8>,
    pub msg: Vec<u8>,
}

/// What the factory asks the platform to do after a command.
#[derive(Clone, Debug, PartialEq, Eq)]
pub enum Request {
    /// Deploy a pair instance from `code_id`. The instance is told its two
    /// assets and the implementation of its liquidity-receipt token, and to
    /// call the factory at `callback_addr`, once deployed, to register the
    /// pair of `callback_asset_infos`.
    Deploy {
        code_id: u64,
        asset_infos: [AssetInfo; 2],
        token_code_id: u64,
        callback_addr: Vec<u8>,
        callback_asset_infos: [AssetInfo; 2],
    },
    /// Make the caller's follow-up call, as it was supplied.
    FollowUp { hook: InitHook },
}

/// Which command a response answers.
#[derive(Clone, Copy, Debug, PartialEq, Eq, Structural)]
pub enum Action {
    Instantiate,
    UpdateConfig,
    CreatePair,
    Register,
    Migrate,
}

/// The outcome of a command: the requests to the platform, in the order in
/// which they are to be made.
#[derive(Clone, Debug, PartialEq, Eq)]
pub struct Response {
    pub action: Action,
    pub messages: Vec<Request>,
}

/// Where the factory itself lives.
#[derive(Clone, Debug, PartialEq, Eq)]
pub struct Env {
    pub contract_address: Vec<u8>,
}

/// The authenticated identity of a command's caller.
#[derive(Clone, Debug, PartialEq, Eq)]
pub struct MessageInfo {
    pub sender: Vec<u8>,
}

/// What the factory is initialised with.
#[derive(Clone, Debug, PartialEq, Eq)]
pub struct InstantiateMsg {
    pub token_code_id: u64,
    pub pair_code_ids: Vec<u64>,
    pub init_hook: Option<InitHook>,
}

/// The commands.
#[derive(Clone, Debug, PartialEq, Eq)]
pub enum ExecuteMsg {
    /// Overwrite the configuration's fields that are given. Owner only.
    UpdateConfig {
        owner: Option<Vec<u8>>,
        token_code_id: Option<u64>,
        pair_code_ids: Option<Vec<u64>>,
    },
    /// Create the pair of two assets from an approved implementation.
    CreatePair { pair_code_id: u64, asset_infos: [AssetInfo; 2], init_hook: Option<InitHook> },
    /// Complete a pair's registration. The caller is the deployed pair
    /// instance; `liquidity_token` is the address that it reported for its
    /// liquidity-receipt token.
    Register { asset_infos: [AssetInfo; 2], liquidity_token: Vec<u8> },
}

/// The queries.
#[derive(Clone, Debug, PartialEq, Eq)]
pub enum QueryMsg {
    Config,
    Pair { asset_infos: [AssetInfo; 2] },
    Pairs { start_after: Option<[AssetInfo; 2]>, limit: Option<u32> },
}

/// A query's answer.
#[derive(Clone, Debug, PartialEq, Eq)]
pub enum QueryResponse {
    Config(ConfigResponse),
    Pair(PairInfo),
    Pairs(PairsResponse),
}

/// The payload of a migration. It carries nothing.
#[derive(Clone, Debug, PartialEq, Eq)]
pub struct MigrateMsg {}

/// The factory's state: its configuration and its registry of pairs.
pub struct Factory {
    pub config: Config,
    pub pairs: Registry,
}

/// Where the factory's state is kept: empty until the factory is
/// initialised, and holding its one state from then on.
pub struct Store {
    pub factory: Option<Factory>,
}

/// The requests that forward an optional follow-up call.
pub open spec fn follow_up(init_hook: Option<InitHook>) -> Seq<Request> {
    match init_hook {
        Some(hook) => seq![Request::FollowUp { hook }],
        None => Seq::<Request>::empty(),
    }
}

/// Whether `m` is the request to deploy the pair of `pair` from `code_id`,
/// with the callback addressed to `factory_addr`.
pub open spec fn is_deploy(
    m: Request,
    code_id: u64,
    pair: (AssetSpec, AssetSpec),
    token_code_id: u64,
    factory_addr: Seq<u8>,
) -> bool {
    match m {
        Request::Deploy {
            code_id: c,
            asset_infos,
            token_code_id: t,
            callback_addr,
            callback_asset_infos,
        } => {
            &&& c == code_id
            &&& pair_view(asset_infos) == pair
            &&& t == token_code_id
            &&& callback_addr@ == factory_addr
            &&& pair_view(callback_asset_infos) == pair
        },
        Request::FollowUp { .. } => false,
    }
}

/// The configuration after an update: each field that is given replaces
/// the old one, the others stay.
pub open spec fn updated_config(
    old_config: ConfigSpec,
    owner: Option<Vec<u8>>,
    token_code_id: Option<u64>,
    pair_code_ids: Option<Vec<u64>>,
) -> ConfigSpec {
    ConfigSpec {
        owner: match owner {
            Some(o) => o@,
            None => old_config.owner,
        },
        token_code_id: match token_code_id {
            Some(t) => t,
            None => old_config.token_code_id,
        },
        pair_code_ids: match pair_code_ids {
            Some(ids) => ids@,
            None => old_config.pair_code_ids,
        },
    }
}

/// Whether `id` is in `ids`.
pub fn is_approved(ids: &Vec<u64>, id: u64) -> (r: bool)
    ensures
        r == ids@.contains(id),
{
    let mut i: usize = 0;
    while i < ids.len()
        invariant
            i <= ids.len(),
            forall|j: int| 0 <= j < i ==> ids@[j] != id,
        decreases ids.len() - i,
    {
        if ids[i] == id {
            return true;
        }
        i += 1;
    }
    false
}

fn ids_clone(ids: &Vec<u64>) -> (r: Vec<u64>)
    ensures
        r@ == ids@,
{
    let mut r: Vec<u64> = Vec::new();
    let mut i: usize = 0;
    while i < ids.len()
        invariant
            i <= ids.len(),
            r@ == ids@.take(i as int),
        decreases ids.len() - i,
    {
        r.push(ids[i]);
        i += 1;
        assert(r@ =~= ids@.take(i as int));
    }
    assert(ids@.take(ids.len() as int) =~= ids@);
    r
}

/// What initialisation gives: a factory owned by the caller, with the
/// implementation ids of the message and an empty registry, and a response
/// that forwards the follow-up call, if one was given.
pub open spec fn instantiate_post(
    factory: Factory,
    response: Response,
    info: MessageInfo,
    msg: InstantiateMsg,
) -> bool {
    &&& factory.wf()
    &&& factory.config@ == (ConfigSpec {
        owner: info.sender@,
        token_code_id: msg.token_code_id,
        pair_code_ids: msg.pair_code_ids@,
    })
    &&& factory.pairs.records() == Seq::<PairSpec>::empty()
    &&& response.action == Action::Instantiate
    &&& response.messages@ == follow_up(msg.init_hook)
}

/// Initialises the factory: the caller becomes its owner, the registry
/// starts empty, and the follow-up call, if one is given, is forwarded.
pub fn instantiate(info: MessageInfo, msg: InstantiateMsg) -> (r: (Factory, Response))
    ensures
        instantiate_post(r.0, r.1, info, msg),
{
    let config = Config {
        owner: info.sender,
        token_code_id: msg.token_code_id,
        pair_code_ids: msg.pair_code_ids,
    };
    let mut messages: Vec<Request> = Vec::new();
    if let Some(hook) = msg.init_hook {
        messages.push(Request::FollowUp { hook });
    }
    assert(messages@ =~= follow_up(msg.init_hook));
    (Factory { config, pairs: Registry::new() }, Response { action: Action::Instantiate, messages })
}

impl Store {
    /// A store in which no factory has been initialised.
    pub fn new() -> (r: Store)
        ensures
            r.factory.is_none(),
    {
        Store { factory: None }
    }

    /// Initialises the factory, once: a store that holds a factory refuses,
    /// and keeps what it holds.
    pub fn initialize(&mut self, info: MessageInfo, msg: InstantiateMsg) -> (r: Result<
        Response,
        ContractError,
    >)
        ensures
            old(self).factory.is_some() ==> r.is_err() && r.unwrap_err()
                == ContractError::AlreadyInitialized && *final(self) == *old(self),
            old(self).factory.is_none() ==> r.is_ok() && final(self).factory.is_some()
                && instantiate_post(final(self).factory.unwrap(), r.unwrap(), info, msg),
    {
        if self.factory.is_some() {
            return Err(ContractError::AlreadyInitialized);
        }
        let (factory, response) = instantiate(info, msg);
        self.factory = Some(factory);
        Ok(response)
    }
}

impl Factory {
    /// The factory's invariant: that of its registry.
    pub open spec fn wf(&self) -> bool {
        self.pairs.wf()
    }

    /// Whether two states hold the same configuration and the same records.
    pub open spec fn same_state(&self, other: &Factory) -> bool {
        self.config@ == other.config@ && self.pairs.records() == other.pairs.records()
    }

    /// What a configuration update does. A caller other than the owner is
    /// refused and changes nothing. For the owner each field that is given
    /// is overwritten; the registry stays as it is.
    pub open spec fn update_config_post(
        &self,
        after: &Factory,
        info: MessageInfo,
        owner: Option<Vec<u8>>,
        token_code_id: Option<u64>,
        pair_code_ids: Option<Vec<u64>>,
        r: Result<Response, ContractError>,
    ) -> bool {
        if info.sender@ != self.config@.owner {
            &&& r.is_err()
            &&& r.unwrap_err() == ContractError::Unauthorized
            &&& self.same_state(after)
        } else {
            &&& r.is_ok()
            &&& r.unwrap().action == Action::UpdateConfig
            &&& r.unwrap().messages@.len() == 0
            &&& after.config@ == updated_config(self.config@, owner, token_code_id, pair_code_ids)
            &&& after.pairs.records() == self.pairs.records()
        }
    }

    /// What a creation request does. An implementation that is not
    /// approved is refused, whether the pair exists or not; then a pair
    /// that has a record, pending or registered, is refused. Otherwise a
    /// pending record is written at its place in key order, and the
    /// response asks for the deployment and then for the follow-up call, if
    /// one was given.
    pub open spec fn create_pair_post(
        &self,
        after: &Factory,
        env: Env,
        pair_code_id: u64,
        asset_infos: [AssetInfo; 2],
        init_hook: Option<InitHook>,
        r: Result<Response, ContractError>,
    ) -> bool {
        let pair = pair_view(asset_infos);
        if !self.config@.pair_code_ids.contains(pair_code_id) {
            &&& r.is_err()
            &&& r.unwrap_err() == ContractError::ImplementationNotApproved
            &&& self.same_state(after)
        } else if recorded(self.pairs.records(), pair) {
            &&& r.is_err()
            &&& r.unwrap_err() == ContractError::PairAlreadyExists
            &&& self.same_state(after)
        } else {
            &&& r.is_ok()
            &&& after.config@ == self.config@
            &&& recorded(after.pairs.records(), pair)
            &&& belongs_at(
                self.pairs.records(),
                spec_pair_key(pair),
                place_of(self.pairs.records(), pair),
            )
            &&& after.pairs.records() == self.pairs.records().insert(
                place_of(self.pairs.records(), pair),
                pending(pair),
            )
            &&& r.unwrap().action == Action::CreatePair
            &&& r.unwrap().messages@.len() > 0
            &&& is_deploy(
                r.unwrap().messages@[0],
                pair_code_id,
                pair,
                self.config@.token_code_id,
                env.contract_address@,
            )
            &&& r.unwrap().messages@.skip(1) == follow_up(init_hook)
        }
    }

    /// What the completion callback does. It is refused where the pair has
    /// no record or is registered already, and then changes nothing.
    /// Otherwise the caller's address and the receipt token's are written
    /// into the pair's record, whose descriptors stay.
    pub open spec fn register_post(
        &self,
        after: &Factory,
        info: MessageInfo,
        asset_infos: [AssetInfo; 2],
        liquidity_token: Vec<u8>,
        r: Result<Response, ContractError>,
    ) -> bool {
        let pair = pair_view(asset_infos);
        match complete_outcome(self.pairs.records(), pair) {
            Err(e) => {
                &&& r.is_err()
                &&& r.unwrap_err() == e
                &&& self.same_state(after)
            },
            Ok(_) => {
                &&& r.is_ok()
                &&& r.unwrap().action == Action::Register
                &&& r.unwrap().messages@.len() == 0
                &&& after.config@ == self.config@
                &&& after.pairs.records() == self.pairs.records().update(
                    position(self.pairs.records(), pair),
                    registered(pair, info.sender@, liquidity_token@),
                )
            },
        }
    }

    /// What a command does: what its handler does.
    pub open spec fn execute_post(
        &self,
        after: &Factory,
        env: Env,
        info: MessageInfo,
        msg: ExecuteMsg,
        r: Result<Response, ContractError>,
    ) -> bool {
        match msg {
            ExecuteMsg::UpdateConfig { owner, token_code_id, pair_code_ids } => {
                self.update_config_post(after, info, owner, token_code_id, pair_code_ids, r)
            },
            ExecuteMsg::CreatePair { pair_code_id, asset_infos, init_hook } => {
                self.create_pair_post(after, env, pair_code_id, asset_infos, init_hook, r)
            },
            ExecuteMsg::Register { asset_infos, liquidity_token } => {
                self.register_post(after, info, asset_infos, liquidity_token, r)
            },
        }
    }

    /// What a query returns.
    pub open spec fn query_post(
        &self,
        msg: QueryMsg,
        r: Result<QueryResponse, ContractError>,
    ) -> bool {
        match msg {
            QueryMsg::Config => r.is_ok() && match r.unwrap() {
                QueryResponse::Config(c) => self.config_post(c),
                _ => false,
            },
            QueryMsg::Pair { asset_infos } => match r {
                Ok(QueryResponse::Pair(p)) => self.pair_post(asset_infos, Ok(p)),
                Err(e) => self.pair_post(asset_infos, Err(e)),
                _ => false,
            },
            QueryMsg::Pairs { start_after, limit } => r.is_ok() && match r.unwrap() {
                QueryResponse::Pairs(p) => self.pairs_post(
                    match start_after {
                        Some(pair) => Some(pair_view(pair)),
                        None => None,
                    },
                    limit,
                    p,
                ),
                _ => false,
            },
        }
    }

    /// The configuration query reports the configuration as it stands.
    pub open spec fn config_post(&self, c: ConfigResponse) -> bool {
        &&& c.owner@ == self.config@.owner
        &&& c.token_code_id == self.config@.token_code_id
        &&& c.pair_code_ids@ == self.config@.pair_code_ids
    }

    /// The pair query returns the pair's record, or `RecordNotFound` where
    /// it has none.
    pub open spec fn pair_post(
        &self,
        asset_infos: [AssetInfo; 2],
        r: Result<PairInfo, ContractError>,
    ) -> bool {
        let pair = pair_view(asset_infos);
        if recorded(self.pairs.records(), pair) {
            r.is_ok() && r.unwrap()@ == lookup(self.pairs.records(), pair)
        } else {
            r.is_err() && r.unwrap_err() == ContractError::RecordNotFound
        }
    }

    /// The pairs query returns the page of records that follows `after` in
    /// ascending key order.
    pub open spec fn pairs_post(
        &self,
        after: Option<(AssetSpec, AssetSpec)>,
        limit: Option<u32>,
        p: PairsResponse,
    ) -> bool {
        views(p.pairs@) == page_after(self.pairs.records(), after, limit)
    }
}

/// Carries out a command.
pub fn execute(factory: &mut Factory, env: Env, info: MessageInfo, msg: ExecuteMsg) -> (r:
    Result<Response, ContractError>)
    ensures
        final(factory).wf(),
        old(factory).execute_post(final(factory), env, info, msg, r),
{
    match msg {
        ExecuteMsg::UpdateConfig { owner, token_code_id, pair_code_ids } => {
            execute_update_config(factory, env, info, owner, token_code_id, pair_code_ids)
        },
        ExecuteMsg::CreatePair { pair_code_id, asset_infos, init_hook } => {
            execute_create_pair(factory, env, pair_code_id, asset_infos, init_hook)
        },
        ExecuteMsg::Register { asset_infos, liquidity_token } => {
            register(factory, env, info, asset_infos, liquidity_token)
        },
    }
}

/// Whether the caller is the owner, who alone may update the
/// configuration.
pub fn check_owner(factory: &Factory, info: &MessageInfo) -> (r: Result<(), ContractError>)
    ensures
        r == if info.sender@ == factory.config@.owner {
            Ok::<(), ContractError>(())
        } else {
            Err::<(), ContractError>(ContractError::Unauthorized)
        },
{
    if bytes_eq(&info.sender, &factory.config.owner) {
        Ok(())
    } else {
        Err(ContractError::Unauthorized)
    }
}

/// Updates the configuration. Only the owner may.
pub fn execute_update_config(
    factory: &mut Factory,
    _env: Env,
    info: MessageInfo,
    owner: Option<Vec<u8>>,
    token_code_id: Option<u64>,
    pair_code_ids: Option<Vec<u64>>,
) -> (r: Result<Response, ContractError>)
    ensures
        final(factory).wf(),
        old(factory).update_config_post(
            final(factory),
            info,
            owner,
            token_code_id,
            pair_code_ids,
            r,
        ),
{
    proof {
        use_type_invariant(&factory.pairs);
    }
    match check_owner(factory, &info) {
        Err(e) => {
            return Err(e);
        },
        Ok(()) => {},
    }
    if let Some(owner) = owner {
        factory.config.owner = owner;
    }
    if let Some(token_code_id) = token_code_id {
        factory.config.token_code_id = token_code_id;
    }
    if let Some(pair_code_ids) = pair_code_ids {
        factory.config.pair_code_ids = pair_code_ids;
    }
    Ok(Response { action: Action::UpdateConfig, messages: Vec::new() })
}

/// Creates a pair: anyone may, from an approved implementation, once
/// for each ordered pair of assets.
pub fn execute_create_pair(
    factory: &mut Factory,
    env: Env,
    pair_code_id: u64,
    asset_infos: [AssetInfo; 2],
    init_hook: Option<InitHook>,
) -> (r: Result<Response, ContractError>)
    ensures
        final(factory).wf(),
        old(factory).create_pair_post(final(factory), env, pair_code_id, asset_infos, init_hook, r),
{
    proof {
        use_type_invariant(&factory.pairs);
    }
    if !is_approved(&factory.config.pair_code_ids, pair_code_id) {
        return Err(ContractError::ImplementationNotApproved);
    }
    let deploy = Request::Deploy {
        code_id: pair_code_id,
        asset_infos: duplicate_pair(&asset_infos),
        token_code_id: factory.config.token_code_id,
        callback_addr: env.contract_address,
        callback_asset_infos: duplicate_pair(&asset_infos),
    };
    match factory.pairs.insert_pending(asset_infos) {
        Err(e) => {
            return Err(e);
        },
        Ok(()) => {},
    }
    let mut messages: Vec<Request> = Vec::new();
    messages.push(deploy);
    if let Some(hook) = init_hook {
        messages.push(Request::FollowUp { hook });
    }
    assert(messages@.skip(1) =~= follow_up(init_hook));
    Ok(Response { action: Action::CreatePair, messages })
}

/// Whether the completion callback for the ordered pair would be
/// accepted, and the error with which it would be refused.
pub fn check_register(factory: &Factory, asset_infos: &[AssetInfo; 2]) -> (r: Result<
    (),
    ContractError,
>)
    ensures
        r == complete_outcome(factory.pairs.records(), pair_view(*asset_infos)),
{
    match factory.pairs.get(asset_infos) {
        Err(e) => Err(e),
        Ok(info) => {
            if info.is_registered() {
                Err(ContractError::AlreadyRegistered)
            } else {
                Ok(())
            }
        },
    }
}

/// Completes a pair's registration with the caller's address, which is
/// the pair instance's, and the address of its liquidity-receipt token.
pub fn register(
    factory: &mut Factory,
    _env: Env,
    info: MessageInfo,
    asset_infos: [AssetInfo; 2],
    liquidity_token: Vec<u8>,
) -> (r: Result<Response, ContractError>)
    ensures
        final(factory).wf(),
        old(factory).register_post(final(factory), info, asset_infos, liquidity_token, r),
{
    match factory.pairs.complete(&asset_infos, info.sender, liquidity_token) {
        Err(e) => Err(e),
        Ok(()) => Ok(Response { action: Action::Register, messages: Vec::new() }),
    }
}

/// Answers a query. The state stays as it is.
pub fn query(factory: &Factory, msg: QueryMsg) -> (r: Result<QueryResponse, ContractError>)
    ensures
        factory.query_post(msg, r),
{
    match msg {
        QueryMsg::Config => Ok(QueryResponse::Config(query_config(factory))),
        QueryMsg::Pair { asset_infos } => match query_pair(factory, &asset_infos) {
            Ok(p) => Ok(QueryResponse::Pair(p)),
            Err(e) => Err(e),
        },
        QueryMsg::Pairs { start_after, limit } => Ok(
            QueryResponse::Pairs(query_pairs(factory, start_after, limit)),
        ),
    }
}

/// The configuration.
pub fn query_config(factory: &Factory) -> (c: ConfigResponse)
    ensures
        factory.config_post(c),
{
    ConfigResponse {
        owner: bytes_clone(&factory.config.owner),
        token_code_id: factory.config.token_code_id,
        pair_code_ids: ids_clone(&factory.config.pair_code_ids),
    }
}

/// The record of the ordered pair.
pub fn query_pair(factory: &Factory, asset_infos: &[AssetInfo; 2]) -> (r: Result<
    PairInfo,
    ContractError,
>)
    ensures
        factory.pair_post(*asset_infos, r),
{
    factory.pairs.get(asset_infos)
}

/// One page of records, after the record of `start_after` if it is
/// given.
pub fn query_pairs(
    factory: &Factory,
    start_after: Option<[AssetInfo; 2]>,
    limit: Option<u32>,
) -> (p: PairsResponse)
    ensures
        factory.pairs_post(
            match start_after {
                Some(pair) => Some(pair_view(pair)),
                None => None,
            },
            limit,
            p,
        ),
{
    let pairs = match &start_after {
        Some(pair) => factory.pairs.list(Some(pair), limit),
        None => factory.pairs.list(None, limit),
    };
    PairsResponse { pairs }
}

/// Migrates the state, whose format has not changed: nothing is done.
pub fn migrate(factory: &mut Factory, _msg: MigrateMsg) -> (r: Response)
    ensures
        *final(factory) == *old(factory),
        r.action == Action::Migrate,
        r.messages@.len() == 0,
{
    Response { action: Action::Migrate, messages: Vec::new() }
}

/// Creation is a one-shot operation: once a creation request for an
/// ordered pair of assets has succeeded, a later request for the same
/// ordered pair from an approved implementation, whichever it is, is
/// refused with `PairAlreadyExists` and changes nothing.
pub proof fn lemma_second_creation_refused(
    s0: Factory,
    s1: Factory,
    s2: Factory,
    env1: Env,
    code1: u64,
    assets1: [AssetInfo; 2],
    hook1: Option<InitHook>,
    r1: Result<Response, ContractError>,
    env2: Env,
    code2: u64,
    assets2: [AssetInfo; 2],
    hook2: Option<InitHook>,
    r2: Result<Response, ContractError>,
)
    requires
        s0.create_pair_post(&s1, env1, code1, assets1, hook1, r1),
        r1.is_ok(),
        s1.create_pair_post(&s2, env2, code2, assets2, hook2, r2),
        pair_view(assets1) == pair_view(assets2),
        s1.config@.pair_code_ids.contains(code2),
    ensures
        r2.is_err(),
        r2.unwrap_err() == ContractError::PairAlreadyExists,
        s1.same_state(&s2),
{
}

/// The completion callback is accepted once: after it has succeeded for
/// an ordered pair of assets, a second one for the same pair, from whatever
/// caller, is refused with `AlreadyRegistered` and changes nothing.
pub proof fn lemma_second_registration_refused(
    s0: Factory,
    s1: Factory,
    s2: Factory,
    info1: MessageInfo,
    assets1: [AssetInfo; 2],
    token1: Vec<u8>,
    r1: Result<Response, ContractError>,
    info2: MessageInfo,
    assets2: [AssetInfo; 2],
    token2: Vec<u8>,
    r2: Result<Response, ContractError>,
)
    requires
        s1.wf(),
        s0.register_post(&s1, info1, assets1, token1, r1),
        r1.is_ok(),
        s1.register_post(&s2, info2, assets2, token2, r2),
        pair_view(assets1) == pair_view(assets2),
    ensures
        r2.is_err(),
        r2.unwrap_err() == ContractError::AlreadyRegistered,
        s1.same_state(&s2),
{
    let pair = pair_view(assets1);
    let p = position(s0.pairs.records(), pair);
    lemma_position_unique(s1.pairs.records(), pair, p);
}

/// A pair that was created and has not been registered is registered by
/// the first completion callback, whoever created it and from whichever
/// implementation.
pub proof fn lemma_registration_follows_creation(
    s0: Factory,
    s1: Factory,
    env: Env,
    code: u64,
    assets: [AssetInfo; 2],
    hook: Option<InitHook>,
    r: Result<Response, ContractError>,
)
    requires
        s0.wf(),
        s1.wf(),
        s0.create_pair_post(&s1, env, code, assets, hook, r),
        r.is_ok(),
    ensures
        complete_outcome(s1.pairs.records(), pair_view(assets)) == Ok::<(), ContractError>(()),
{
    let pair = pair_view(assets);
    let pos = place_of(s0.pairs.records(), pair);
    assert(s1.pairs.records()[pos] == pending(pair));
    lemma_position_unique(s1.pairs.records(), pair, pos);
}

/// Records are never deleted: a pair that has a record before a command
/// has one after it, whatever the command and whether it succeeds.
pub proof fn lemma_records_are_kept(
    before: Factory,
    after: Factory,
    env: Env,
    info: MessageInfo,
    msg: ExecuteMsg,
    r: Result<Response, ContractError>,
    pair: (AssetSpec, AssetSpec),
)
    requires
        before.wf(),
        before.execute_post(&after, env, info, msg, r),
        recorded(before.pairs.records(), pair),
    ensures
        recorded(after.pairs.records(), pair),
{
    let old_recs = before.pairs.records();
    let new_recs = after.pairs.records();
    let p = position(old_recs, pair);
    match msg {
        ExecuteMsg::UpdateConfig { .. } => {},
        ExecuteMsg::CreatePair { asset_infos, .. } => {
            if r.is_ok() {
                let pos = place_of(old_recs, pair_view(asset_infos));
                if p < pos {
                    assert(new_recs[p] == old_recs[p]);
                } else {
                    assert(new_recs[p + 1] == old_recs[p]);
                }
            }
        },
        ExecuteMsg::Register { asset_infos, .. } => {
            if r.is_ok() {
                assert(new_recs[p].asset_infos == pair);
            }
        },
    }
}

/// A registered record is final: once a pair's addresses are set, no
/// command changes its record.
pub proof fn lemma_registered_records_stay(
    before: Factory,
    after: Factory,
    env: Env,
    info: MessageInfo,
    msg: ExecuteMsg,
    r: Result<Response, ContractError>,
    pair: (AssetSpec, AssetSpec),
)
    requires
        before.wf(),
        after.wf(),
        before.execute_post(&after, env, info, msg, r),
        recorded(before.pairs.records(), pair),
        lookup(before.pairs.records(), pair).contract_addr.is_some(),
    ensures
        recorded(after.pairs.records(), pair),
        lookup(after.pairs.records(), pair) == lookup(before.pairs.records(), pair),
{
    let old_recs = before.pairs.records();
    let new_recs = after.pairs.records();
    let p = position(old_recs, pair);
    match msg {
        ExecuteMsg::UpdateConfig { .. } => {},
        ExecuteMsg::CreatePair { asset_infos, .. } => {
            if r.is_ok() {
                let pos = place_of(old_recs, pair_view(asset_infos));
                if p < pos {
                    lemma_position_unique(new_recs, pair, p);
                } else {
                    lemma_position_unique(new_recs, pair, p + 1);
                }
            }
        },
        ExecuteMsg::Register { asset_infos, .. } => {
            if r.is_ok() {
                let q = position(old_recs, pair_view(asset_infos));
                lemma_position_unique(old_recs, pair, p);
                assert(q != p);
                lemma_position_unique(new_recs, pair, p);
            }
        },
    }
}

/// A pending record changes in one way only: the completion callback for
/// its pair fills in both addresses. Its descriptors stay as they were
/// written.
pub proof fn lemma_pending_records_change_by_registration_only(
    before: Factory,
    after: Factory,
    env: Env,
    info: MessageInfo,
    msg: ExecuteMsg,
    r: Result<Response, ContractError>,
    pair: (AssetSpec, AssetSpec),
)
    requires
        before.wf(),
        after.wf(),
        before.execute_post(&after, env, info, msg, r),
        recorded(before.pairs.records(), pair),
        lookup(before.pairs.records(), pair).contract_addr.is_none(),
    ensures
        recorded(after.pairs.records(), pair),
        lookup(after.pairs.records(), pair).asset_infos == pair,
        lookup(after.pairs.records(), pair) != lookup(before.pairs.records(), pair) ==> r.is_ok()
            && match msg {
            ExecuteMsg::Register { asset_infos, liquidity_token } => pair_view(asset_infos) == pair
                && lookup(after.pairs.records(), pair) == registered(
                pair,
                info.sender@,
                liquidity_token@,
            ),
            _ => false,
        },
{
    let old_recs = before.pairs.records();
    let new_recs = after.pairs.records();
    let p = position(old_recs, pair);
    match msg {
        ExecuteMsg::UpdateConfig { .. } => {},
        ExecuteMsg::CreatePair { asset_infos, .. } => {
            if r.is_ok() {
                let pos = place_of(old_recs, pair_view(asset_infos));
                if p < pos {
                    lemma_position_unique(new_recs, pair, p);
                } else {
                    lemma_position_unique(new_recs, pair, p + 1);
                }
            }
        },
        ExecuteMsg::Register { asset_infos, .. } => {
            if r.is_ok() {
                lemma_position_unique(old_recs, pair, p);
                lemma_position_unique(new_recs, pair, p);
            }
        },
    }
}

} // verus!
