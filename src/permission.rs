//! Permissions as balances: grants, ownership and tenancy are unit balances on
//! accounts named by convention, and an access check is a few balance lookups.
use vstd::prelude::*;
use vstd::string::*;
use crate::addressing::{GENESIS, VOID};
use crate::balances::{legs_in, transfer_outcome, AccountLegs, LedgerError};
use crate::ledger::{copy_meta, keys_unique, meta_insert, meta_view, new_transfer_id, Transfer, ZikZakEngine};
use crate::text::{starts_with, str_eq};

verus! {

/// `user:<user>:admin`: the super-admin grant.
pub open spec fn admin_account(user: Seq<char>) -> Seq<char> {
    "user:"@ + user + ":admin"@
}

/// `user:<user>:<action>:<scope>`: a grant of an action on a resource type, or
/// on everything with scope `all`.
pub open spec fn grant_account(user: Seq<char>, action: Seq<char>, scope: Seq<char>) -> Seq<char> {
    "user:"@ + user + ":"@ + action + ":"@ + scope
}

/// `<resource_type>:<resource_id>:owner:<user>`: ownership of one resource.
pub open spec fn owner_account(rtype: Seq<char>, rid: Seq<char>, user: Seq<char>) -> Seq<char> {
    rtype + ":"@ + rid + ":owner:"@ + user
}

/// The access decision over a table of balances, in order: admin; a grant of
/// the action on everything; a grant on the resource type (for write and delete
/// only together with ownership); ownership.
pub open spec fn access(m: Map<Seq<char>, AccountLegs>, user: Seq<char>, rtype: Seq<char>, rid: Seq<char>, action: Seq<char>) -> bool {
    let pos = |k: Seq<char>| legs_in(m, k).balance > 0;
    let owns = pos(owner_account(rtype, rid, user));
    if pos(admin_account(user)) {
        true
    } else if pos(grant_account(user, action, "all"@)) {
        true
    } else if pos(grant_account(user, action, rtype)) {
        if action == "write"@ || action == "delete"@ { owns } else { true }
    } else {
        owns
    }
}

/// Number of accounts among `names` whose name holds a `:` and whose balance in
/// `t` is positive.
pub open spec fn positive_count(t: Map<Seq<char>, AccountLegs>, names: Seq<Seq<char>>) -> nat
    decreases names.len(),
{
    if names.len() == 0 {
        0
    } else {
        positive_count(t, names.drop_last()) + if crate::text::occurs_in(names.last(), ":"@)
            && legs_in(t, names.last()).balance > 0 {
            1nat
        } else {
            0nat
        }
    }
}

/// Counts over the security ledger.
pub struct SecurityStats {
    pub total_accounts: usize,
    pub total_transactions: usize,
    /// Accounts with a `:` in their name and a positive balance.
    pub total_permissions: usize,
}

pub open spec fn valid_role(role: Seq<char>) -> bool {
    role == "admin"@ || role == "customer"@ || role == "manager"@
}

pub open spec fn opt_view(t: Option<&str>) -> Option<Seq<char>> {
    match t {
        Some(x) => Some(x@),
        None => None,
    }
}

pub open spec fn ledger_result(r: Result<(), LedgerError>) -> Result<(), SecurityError> {
    match r {
        Ok(_) => Ok(()),
        Err(e) => Err(SecurityError::Ledger(e)),
    }
}

/// The grant accounts of a role (admin, customer, else manager).
pub open spec fn role_accounts(u: Seq<char>, role: Seq<char>) -> Seq<Seq<char>> {
    if role == "admin"@ {
        seq![admin_account(u), grant_account(u, "read"@, "all"@), grant_account(u, "write"@, "all"@)]
    } else if role == "customer"@ {
        seq![grant_account(u, "read"@, "products"@), grant_account(u, "write"@, "orders"@), grant_account(u, "read"@, "orders"@)]
    } else {
        seq![grant_account(u, "read"@, "all"@), grant_account(u, "write"@, "products"@), grant_account(u, "read"@, "analytics"@)]
    }
}

/// The accounts a new user gets a unit on, in order: its grants, its tenant
/// membership `tenant:<t>:member:<u>`, its existence `user:<u>:existence`.
pub open spec fn user_accounts(u: Seq<char>, role: Seq<char>, tenant: Option<Seq<char>>) -> Seq<Seq<char>> {
    let tm = match tenant {
        Some(t) => seq!["tenant:"@ + t + ":member:"@ + u],
        None => Seq::<Seq<char>>::empty(),
    };
    role_accounts(u, role) + tm + seq!["user:"@ + u + ":existence"@]
}

/// The accounts a new resource gets a unit on, in order: its existence, its
/// owner, and its tenant `<type>:<id>:tenant:<t>`.
pub open spec fn resource_accounts(rtype: Seq<char>, rid: Seq<char>, owner: Seq<char>, tenant: Option<Seq<char>>) -> Seq<Seq<char>> {
    let base = rtype + ":"@ + rid;
    let tm = match tenant {
        Some(t) => seq![base + ":tenant:"@ + t],
        None => Seq::<Seq<char>>::empty(),
    };
    seq![base + ":existence"@, owner_account(rtype, rid, owner)] + tm
}

/// Unit transfers from genesis to each account in turn, stopping at the first
/// refusal: the resulting table and result.
pub open spec fn unit_grants(m: Map<Seq<char>, AccountLegs>, accounts: Seq<Seq<char>>) -> (Map<Seq<char>, AccountLegs>, Result<(), LedgerError>)
    decreases accounts.len(),
{
    if accounts.len() == 0 {
        (m, Ok(()))
    } else {
        let p = unit_grants(m, accounts.drop_last());
        if p.1 is Err {
            p
        } else {
            match transfer_outcome(p.0, GENESIS@, accounts.last(), 1) {
                Ok(m2) => (m2, Ok(())),
                Err(e) => (p.0, Err(e)),
            }
        }
    }
}

proof fn lemma_unit_grants_stop(m: Map<Seq<char>, AccountLegs>, a: Seq<Seq<char>>, k: int)
    requires
        0 < k <= a.len(),
        unit_grants(m, a.take(k)).1 is Err,
    ensures
        unit_grants(m, a) == unit_grants(m, a.take(k)),
    decreases a.len() - k,
{
    if k < a.len() {
        assert(a.take(k + 1).drop_last() =~= a.take(k));
        lemma_unit_grants_stop(m, a, k + 1);
    } else {
        assert(a.take(k) =~= a);
    }
}

/// Why a security operation failed.
#[derive(Clone, Copy, Debug, PartialEq, Eq, Structural)]
pub enum SecurityError {
    /// No `Bearer` token in the authorization header.
    MissingToken,
    /// A token that does not name a user.
    InvalidToken,
    /// A role other than admin, customer or manager.
    InvalidRole,
    /// The caller lacks the admin grant.
    Forbidden,
    /// The ledger refused a transfer.
    Ledger(LedgerError),
}

fn concat(a: &str, b: &str) -> (r: String)
    ensures
        r@ == a@ + b@,
{
    let mut s = String::from_str(a);
    s.append(b);
    s
}

fn admin_name(user: &str) -> (r: String)
    ensures
        r@ == admin_account(user@),
{
    let r = concat(concat("user:", user).as_str(), ":admin");
    r
}

fn grant_name(user: &str, action: &str, scope: &str) -> (r: String)
    ensures
        r@ == grant_account(user@, action@, scope@),
{
    let a = concat(concat("user:", user).as_str(), ":");
    let b = concat(concat(a.as_str(), action).as_str(), ":");
    let r = concat(b.as_str(), scope);
    r
}

fn owner_name(rtype: &str, rid: &str, user: &str) -> (r: String)
    ensures
        r@ == owner_account(rtype@, rid@, user@),
{
    let a = concat(concat(rtype, ":").as_str(), rid);
    let r = concat(concat(a.as_str(), ":owner:").as_str(), user);
    r
}

/// The user named by an authorization header value `Bearer user_<...>`.
pub fn extract_user_id(authorization: Option<&str>) -> (r: Result<String, SecurityError>)
    ensures
        match authorization {
            None => r == Err::<String, SecurityError>(SecurityError::MissingToken),
            Some(h) => if !(h@.len() >= 7 && h@.subrange(0, 7) == "Bearer "@) {
                r == Err::<String, SecurityError>(SecurityError::MissingToken)
            } else if !(h@.len() >= 12 && h@.subrange(7, 12) == "user_"@) {
                r == Err::<String, SecurityError>(SecurityError::InvalidToken)
            } else {
                r is Ok && r->Ok_0@ == h@.skip(7)
            },
        },
{
    let h = match authorization {
        Some(h) => h,
        None => return Err(SecurityError::MissingToken),
    };
    proof {
        reveal_strlit("Bearer ");
        reveal_strlit("user_");
    }
    if !starts_with(h, "Bearer ") {
        return Err(SecurityError::MissingToken);
    }
    let n = h.unicode_len();
    let token = h.substring_char(7, n);
    if !starts_with(token, "user_") {
        proof {
            if h@.len() >= 12 && h@.subrange(7, 12) == "user_"@ {
                assert(token@.subrange(0, 5) =~= h@.subrange(7, 12));
            }
        }
        return Err(SecurityError::InvalidToken);
    }
    proof {
        assert(token@.subrange(0, 5) =~= h@.subrange(7, 12));
        assert(token@ =~= h@.skip(7));
    }
    Ok(String::from_str(token))
}

/// The security engine: a ledger whose balances are the permissions.
pub struct ZikZakSecurityEngine {
    ledger: ZikZakEngine,
}

impl ZikZakSecurityEngine {
    pub closed spec fn wf(&self) -> bool {
        self.ledger.wf()
    }

    /// The balances.
    pub closed spec fn table(&self) -> Map<Seq<char>, AccountLegs> {
        self.ledger.table()
    }

    /// The audit log, oldest first.
    pub closed spec fn history(&self) -> Seq<Transfer> {
        self.ledger.history()
    }

    /// The account names, in creation order.
    pub closed spec fn account_names(&self) -> Seq<Seq<char>> {
        self.ledger.account_names()
    }

    /// An engine with genesis and void created.
    pub fn new() -> (r: ZikZakSecurityEngine)
        ensures
            r.wf(),
            r.history().len() == 0,
            forall|k: Seq<char>| legs_in(r.table(), k).balance == 0,
    {
        let mut ledger = ZikZakEngine::new();
        ledger.ensure_system_accounts();
        let r = ZikZakSecurityEngine { ledger };
        proof {
            assert forall|k: Seq<char>| legs_in(r.table(), k).balance == 0 by {
                if r.table().contains_key(k) {
                    assert(r.table()[k] == crate::balances::zero_legs());
                }
            }
        }
        r
    }

    /// The ledger underneath.
    pub fn ledger(&self) -> (r: &ZikZakEngine)
        ensures
            r.table() == self.table(),
            r.history() == self.history(),
            r.wf() == self.wf(),
    {
        &self.ledger
    }

    /// A transfer recorded with its operation name under the `operation` key.
    pub fn transfer(&mut self, from: &str, to: &str, amount: i64, operation: &str, metadata: Vec<(String, String)>) -> (r: Result<String, LedgerError>)
        requires
            old(self).wf(),
            keys_unique(meta_view(metadata@)),
        ensures
            final(self).wf(),
            match transfer_outcome(old(self).table(), from@, to@, amount as int) {
                Ok(m) => r is Ok && final(self).table() == m && final(self).history().len() == old(self).history().len() + 1,
                Err(e) => r == Err::<String, LedgerError>(e) && final(self).table() == old(self).table()
                    && final(self).history() == old(self).history(),
            },
    {
        let mut meta = metadata;
        meta_insert(&mut meta, "operation", operation);
        self.ledger.transfer(from, to, amount, meta)
    }

    /// Whether a permission account holds a positive balance.
    pub fn has_permission(&self, permission_account: &str) -> (r: bool)
        requires
            self.wf(),
        ensures
            r == (legs_in(self.table(), permission_account@).balance > 0),
    {
        self.ledger.get_balance(permission_account) > 0
    }

    /// Whether `user` may perform `action` on resource `resource_id` of type
    /// `resource_type`.
    pub fn can_access_resource(&self, user_id: &str, resource_type: &str, resource_id: &str, action: &str) -> (r: bool)
        requires
            self.wf(),
        ensures
            r == access(self.table(), user_id@, resource_type@, resource_id@, action@),
    {
        if self.has_permission(admin_name(user_id).as_str()) {
            return true;
        }
        if self.has_permission(grant_name(user_id, action, "all").as_str()) {
            return true;
        }
        let owns = self.has_permission(owner_name(resource_type, resource_id, user_id).as_str());
        if self.has_permission(grant_name(user_id, action, resource_type).as_str()) {
            if str_eq(action, "write") || str_eq(action, "delete") {
                return owns;
            }
            return true;
        }
        owns
    }

    /// Grants `permission` (`admin`, or `<action>:<scope>`) to a user: a unit
    /// transfer from genesis to `user:<user>:<permission>`, recording the granter.
    pub fn grant_permission(&mut self, granted_by: &str, user_id: &str, permission: &str) -> (r: Result<String, LedgerError>)
        requires
            old(self).wf(),
        ensures
            final(self).wf(),
            match transfer_outcome(old(self).table(), GENESIS@, "user:"@ + user_id@ + ":"@ + permission@, 1) {
                Ok(m) => r is Ok && final(self).table() == m,
                Err(e) => r == Err::<String, LedgerError>(e) && final(self).table() == old(self).table(),
            },
    {
        let account = concat(concat(concat("user:", user_id).as_str(), ":").as_str(), permission);
        let mut meta: Vec<(String, String)> = Vec::new();
        meta_insert(&mut meta, "granted_by", granted_by);
        meta_insert(&mut meta, "target_user", user_id);
        self.transfer(GENESIS, account.as_str(), 1, "grant_permission", meta)
    }

    /// Revokes a permission: a unit transfer from the permission account to void.
    pub fn revoke_permission(&mut self, user_id: &str, permission: &str) -> (r: Result<String, LedgerError>)
        requires
            old(self).wf(),
        ensures
            final(self).wf(),
            match transfer_outcome(old(self).table(), "user:"@ + user_id@ + ":"@ + permission@, VOID@, 1) {
                Ok(m) => r is Ok && final(self).table() == m,
                Err(e) => r == Err::<String, LedgerError>(e) && final(self).table() == old(self).table(),
            },
    {
        let account = concat(concat(concat("user:", user_id).as_str(), ":").as_str(), permission);
        self.transfer(account.as_str(), VOID, 1, "revoke_permission", Vec::new())
    }

    /// Grants ownership of a resource to a user.
    pub fn grant_ownership(&mut self, resource_type: &str, resource_id: &str, user_id: &str) -> (r: Result<String, LedgerError>)
        requires
            old(self).wf(),
        ensures
            final(self).wf(),
            match transfer_outcome(old(self).table(), GENESIS@, owner_account(resource_type@, resource_id@, user_id@), 1) {
                Ok(m) => r is Ok && final(self).table() == m,
                Err(e) => r == Err::<String, LedgerError>(e) && final(self).table() == old(self).table(),
            },
    {
        let account = owner_name(resource_type, resource_id, user_id);
        self.transfer(GENESIS, account.as_str(), 1, "set_owner", Vec::new())
    }

    /// Transfers one unit from genesis to each account in turn, recording
    /// `meta` and the matching operation name, and stops at the first refusal;
    /// the units already transferred stay.
    fn grant_units(&mut self, accounts: &Vec<String>, ops: &Vec<&str>, meta: &Vec<(String, String)>) -> (r: Result<(), LedgerError>)
        requires
            old(self).wf(),
            accounts@.len() == ops@.len(),
            keys_unique(meta_view(meta@)),
        ensures
            final(self).wf(),
            final(self).table() == unit_grants(old(self).table(), accounts@.map_values(|a: String| a@)).0,
            r == unit_grants(old(self).table(), accounts@.map_values(|a: String| a@)).1,
    {
        let ghost av = accounts@.map_values(|a: String| a@);
        let ghost m0 = self.table();
        let mut i: usize = 0;
        proof {
            assert(av.take(0) =~= Seq::<Seq<char>>::empty());
        }
        while i < accounts.len()
            invariant
                self.wf(),
                accounts@.len() == ops@.len(),
                keys_unique(meta_view(meta@)),
                av == accounts@.map_values(|a: String| a@),
                m0 == old(self).table(),
                i <= accounts@.len(),
                unit_grants(m0, av.take(i as int)) == (self.table(), Ok::<(), LedgerError>(())),
            decreases accounts@.len() - i,
        {
            proof {
                assert(av.take(i + 1).drop_last() =~= av.take(i as int));
                assert(av.take(i + 1).last() == accounts@[i as int]@);
            }
            match self.transfer(GENESIS, accounts[i].as_str(), 1, ops[i], copy_meta(meta)) {
                Ok(_) => {},
                Err(e) => {
                    proof {
                        lemma_unit_grants_stop(m0, av, i as int + 1);
                    }
                    return Err(e);
                },
            }
            i = i + 1;
        }
        proof {
            assert(av.take(av.len() as int) =~= av);
        }
        Ok(())
    }

    /// Creates the user `user_id` with the grants of its role: admin (admin,
    /// read:all, write:all), customer (read:products, write:orders, read:orders)
    /// or manager (read:all, write:products, read:analytics); adds it to a tenant
    /// when one is given; then creates its existence account. Grants already made
    /// stay when a later one fails.
    pub fn create_user_with_id(&mut self, user_id: &str, email: &str, role: &str, tenant_id: Option<&str>) -> (r: Result<(), SecurityError>)
        requires
            old(self).wf(),
        ensures
            final(self).wf(),
            !valid_role(role@) ==> r == Err::<(), SecurityError>(SecurityError::InvalidRole) && final(self).table() == old(self).table(),
            valid_role(role@) ==> {
                let g = unit_grants(old(self).table(), user_accounts(user_id@, role@, opt_view(tenant_id)));
                &&& final(self).table() == g.0
                &&& r == ledger_result(g.1)
            },
    {
        let is_admin = str_eq(role, "admin");
        let is_customer = str_eq(role, "customer");
        let is_manager = str_eq(role, "manager");
        if !is_admin && !is_customer && !is_manager {
            return Err(SecurityError::InvalidRole);
        }
        let mut meta: Vec<(String, String)> = Vec::new();
        meta_insert(&mut meta, "email", email);
        meta_insert(&mut meta, "role", role);
        if let Some(t) = tenant_id {
            meta_insert(&mut meta, "tenant_id", t);
        }
        let mut accounts: Vec<String> = Vec::new();
        let mut ops: Vec<&str> = Vec::new();
        if is_admin {
            accounts.push(admin_name(user_id));
            ops.push("grant_admin");
            accounts.push(grant_name(user_id, "read", "all"));
            ops.push("grant_read_all");
            accounts.push(grant_name(user_id, "write", "all"));
            ops.push("grant_write_all");
        } else if is_customer {
            accounts.push(grant_name(user_id, "read", "products"));
            ops.push("grant_read_products");
            accounts.push(grant_name(user_id, "write", "orders"));
            ops.push("grant_write_orders");
            accounts.push(grant_name(user_id, "read", "orders"));
            ops.push("grant_read_orders");
        } else {
            accounts.push(grant_name(user_id, "read", "all"));
            ops.push("grant_read_all");
            accounts.push(grant_name(user_id, "write", "products"));
            ops.push("grant_write_products");
            accounts.push(grant_name(user_id, "read", "analytics"));
            ops.push("grant_read_analytics");
        }
        if let Some(t) = tenant_id {
            accounts.push(concat(concat(concat("tenant:", t).as_str(), ":member:").as_str(), user_id));
            ops.push("add_to_tenant");
        }
        accounts.push(concat(concat("user:", user_id).as_str(), ":existence"));
        ops.push("create_user");
        proof {
            assert(accounts@.map_values(|a: String| a@) =~= user_accounts(user_id@, role@, opt_view(tenant_id)));
        }
        match self.grant_units(&accounts, &ops, &meta) {
            Ok(()) => Ok(()),
            Err(e) => Err(SecurityError::Ledger(e)),
        }
    }

    /// Creates a user `user_<random id>` (see [`Self::create_user_with_id`]) and
    /// returns its id.
    pub fn create_user(&mut self, email: &str, role: &str, tenant_id: Option<&str>) -> (r: Result<String, SecurityError>)
        requires
            old(self).wf(),
        ensures
            final(self).wf(),
            !valid_role(role@) ==> r == Err::<String, SecurityError>(SecurityError::InvalidRole)
                && final(self).table() == old(self).table(),
            valid_role(role@) ==> exists|uid: Seq<char>| {
                let g = unit_grants(old(self).table(), user_accounts("user_"@ + uid, role@, opt_view(tenant_id)));
                &&& #[trigger] uid.len() == 36
                &&& final(self).table() == g.0
                &&& match g.1 {
                    Ok(_) => r is Ok && r->Ok_0@ == "user_"@ + uid,
                    Err(e) => r == Err::<String, SecurityError>(SecurityError::Ledger(e)),
                }
            },
    {
        let uid = new_transfer_id();
        let user_id = concat("user_", uid.as_str());
        match self.create_user_with_id(user_id.as_str(), email, role, tenant_id) {
            Ok(()) => Ok(user_id),
            Err(e) => Err(e),
        }
    }

    /// Creates the resource `resource_id` of a type, owned by `owner_id`: its
    /// existence, its ownership, and its tenant when one is given.
    pub fn create_resource_with_id(&mut self, resource_type: &str, resource_id: &str, owner_id: &str, tenant_id: Option<&str>) -> (r: Result<(), SecurityError>)
        requires
            old(self).wf(),
        ensures
            final(self).wf(),
            ({
                let g = unit_grants(old(self).table(), resource_accounts(resource_type@, resource_id@, owner_id@, opt_view(tenant_id)));
                &&& final(self).table() == g.0
                &&& r == ledger_result(g.1)
            }),
    {
        let mut meta: Vec<(String, String)> = Vec::new();
        meta_insert(&mut meta, "resource_type", resource_type);
        meta_insert(&mut meta, "owner_id", owner_id);
        if let Some(t) = tenant_id {
            meta_insert(&mut meta, "tenant_id", t);
        }
        let base = concat(concat(resource_type, ":").as_str(), resource_id);
        let mut accounts: Vec<String> = Vec::new();
        let mut ops: Vec<&str> = Vec::new();
        accounts.push(concat(base.as_str(), ":existence"));
        ops.push("create_resource");
        accounts.push(owner_name(resource_type, resource_id, owner_id));
        ops.push("set_owner");
        if let Some(t) = tenant_id {
            accounts.push(concat(concat(base.as_str(), ":tenant:").as_str(), t));
            ops.push("set_tenant");
        }
        proof {
            assert(accounts@.map_values(|a: String| a@) =~= resource_accounts(resource_type@, resource_id@, owner_id@, opt_view(tenant_id)));
        }
        match self.grant_units(&accounts, &ops, &meta) {
            Ok(()) => Ok(()),
            Err(e) => Err(SecurityError::Ledger(e)),
        }
    }

    /// Creates a resource under a fresh random id (see
    /// [`Self::create_resource_with_id`]) and returns the id.
    pub fn create_resource(&mut self, resource_type: &str, owner_id: &str, tenant_id: Option<&str>) -> (r: Result<String, SecurityError>)
        requires
            old(self).wf(),
        ensures
            final(self).wf(),
            exists|rid: Seq<char>| {
                let g = unit_grants(old(self).table(), resource_accounts(resource_type@, rid, owner_id@, opt_view(tenant_id)));
                &&& #[trigger] rid.len() == 36
                &&& final(self).table() == g.0
                &&& match g.1 {
                    Ok(_) => r is Ok && r->Ok_0@ == rid,
                    Err(e) => r == Err::<String, SecurityError>(SecurityError::Ledger(e)),
                }
            },
    {
        let rid = new_transfer_id();
        match self.create_resource_with_id(resource_type, rid.as_str(), owner_id, tenant_id) {
            Ok(()) => Ok(rid),
            Err(e) => Err(e),
        }
    }

    /// Accounts, transactions, and positive balances on structured names.
    pub fn security_stats(&self) -> (r: SecurityStats)
        requires
            self.wf(),
        ensures
            r.total_accounts == self.account_names().len(),
            r.total_transactions == self.history().len(),
            r.total_permissions == positive_count(self.table(), self.account_names()),
    {
        let state = self.ledger.get_ledger_state();
        let ghost names = self.ledger.account_names();
        let mut count: usize = 0;
        let mut i: usize = 0;
        proof {
            self.ledger.lemma_account_names();
            assert(names.take(0) =~= Seq::<Seq<char>>::empty());
        }
        while i < state.len()
            invariant
                state@.len() == names.len(),
                forall|j: int| 0 <= j < state@.len() ==> (#[trigger] state@[j]).0@ == names[j] && state@[j].1
                    == legs_in(self.table(), names[j]).balance,
                i <= state@.len(),
                count <= i,
                count == positive_count(self.table(), names.take(i as int)),
            decreases state@.len() - i,
        {
            proof {
                assert(names.take(i + 1).drop_last() =~= names.take(i as int));
                assert(names.take(i + 1).last() == names[i as int]);
            }
            if state[i].1 > 0 && crate::text::contains(state[i].0.as_str(), ":") {
                count = count + 1;
            }
            i = i + 1;
        }
        proof {
            assert(names.take(names.len() as int) =~= names);
        }
        SecurityStats {
            total_accounts: self.ledger.get_account_count(),
            total_transactions: self.ledger.get_transfer_count(),
            total_permissions: count,
        }
    }

    /// The audit trail as an admin sees it: the most recent `limit` transfers
    /// (50 when no limit is given), newest first, and the total count; refused
    /// with `Forbidden` unless `user_id` holds the admin grant.
    pub fn audit_trail_for(&self, user_id: &str, limit: Option<usize>) -> (r: Result<(Vec<&Transfer>, usize), SecurityError>)
        requires
            self.wf(),
        ensures
            legs_in(self.table(), admin_account(user_id@)).balance <= 0 ==> (r matches Err(SecurityError::Forbidden)),
            legs_in(self.table(), admin_account(user_id@)).balance > 0 ==> (r matches Ok(p) && {
                let n = match limit { Some(l) => l as int, None => 50 };
                &&& p.1 == self.history().len()
                &&& p.0@.len() == if n < self.history().len() { n } else { self.history().len() as int }
                &&& forall|i: int| 0 <= i < p.0@.len() ==> *p.0@[i] == self.history()[self.history().len() - 1 - i]
            }),
    {
        if !self.has_permission(admin_name(user_id).as_str()) {
            return Err(SecurityError::Forbidden);
        }
        let n: usize = match limit {
            Some(l) => l,
            None => 50,
        };
        Ok(self.audit_trail(n))
    }

    /// The most recent `limit` transfers, newest first, and the total count.
    pub fn audit_trail(&self, limit: usize) -> (r: (Vec<&Transfer>, usize))
        ensures
            r.1 == self.history().len(),
            r.0@.len() == if limit < self.history().len() { limit as int } else { self.history().len() as int },
            forall|i: int| 0 <= i < r.0@.len() ==> *r.0@[i] == self.history()[self.history().len() - 1 - i],
    {
        (self.ledger.recent(limit), self.ledger.get_transfer_count())
    }
}

/// Permission precedence: a user holding only the write grant on products may
/// not write a product it does not own; granting it ownership of that product
/// allows the write; granting it admin allows the write in any case.
pub proof fn lemma_permission_precedence(m: Map<Seq<char>, AccountLegs>, user: Seq<char>, pid: Seq<char>)
    requires
        legs_in(m, admin_account(user)).balance == 0,
        legs_in(m, grant_account(user, "write"@, "all"@)).balance == 0,
        legs_in(m, grant_account(user, "write"@, "products"@)).balance > 0,
        legs_in(m, owner_account("products"@, pid, user)).balance == 0,
        transfer_outcome(m, GENESIS@, owner_account("products"@, pid, user), 1) is Ok,
        transfer_outcome(m, GENESIS@, admin_account(user), 1) is Ok,
    ensures
        !access(m, user, "products"@, pid, "write"@),
        access(transfer_outcome(m, GENESIS@, owner_account("products"@, pid, user), 1)->Ok_0, user, "products"@, pid, "write"@),
        access(transfer_outcome(m, GENESIS@, admin_account(user), 1)->Ok_0, user, "products"@, pid, "write"@),
{
    reveal_strlit("products");
    reveal_strlit("system:genesis");
    reveal_strlit("user:");
    reveal_strlit(":");
    let owner = owner_account("products"@, pid, user);
    let admin = admin_account(user);
    assert(owner[0] == 'p');
    assert(GENESIS@[0] == 's');
    assert(admin[0] == 'u');
    assert(owner != GENESIS@);
    assert(admin != GENESIS@);
    let m1 = transfer_outcome(m, GENESIS@, owner, 1)->Ok_0;
    assert(legs_in(m1, owner).balance == 1);
    let m2 = transfer_outcome(m, GENESIS@, admin, 1)->Ok_0;
    assert(legs_in(m2, admin).balance == 1);
}

} // verus!
