use vstd::prelude::*;

verus! {

/// Addresses recorded for one creator, in creation order: the second
/// components of the entries whose first component is `owner`.
pub open spec fn contracts_of(s: Seq<(u64, u64)>, owner: u64) -> Seq<u64>
    decreases s.len(),
{
    if s.len() == 0 {
        Seq::empty()
    } else {
        let rest = contracts_of(s.drop_last(), owner);
        if s.last().0 == owner {
            rest.push(s.last().1)
        } else {
            rest
        }
    }
}

/// Factory bookkeeping: which ledger instances were created, and by whom.
/// The templated-clone operation itself is the deployment environment's
/// task; this records its outcome under the creator and in a global list.
pub struct DeployerContract {
    /// Address of the instance used as deployment template.
    pub contract_template: u64,
    /// One entry per deployment: the creator and the created instance.
    pub owner_contracts: Vec<(u64, u64)>,
    /// Every created instance, in creation order.
    pub all_child_contracts: Vec<u64>,
}

impl DeployerContract {
    /// Start the bookkeeping with a template and no deployments.
    pub fn init(contract_template: u64) -> (r: DeployerContract)
        ensures
            r.contract_template == contract_template,
            r.owner_contracts@.len() == 0,
            r.all_child_contracts@.len() == 0,
            forall|o: u64| contracts_of(r.owner_contracts@, o) == Seq::<u64>::empty(),
    {
        DeployerContract {
            contract_template,
            owner_contracts: Vec::new(),
            all_child_contracts: Vec::new(),
        }
    }

    /// Record a freshly deployed ledger instance under its creator and in
    /// the global list, and hand its address back.
    pub fn deploy_new_pay_sync(&mut self, caller: u64, pay_sync_address: u64) -> (r: u64)
        ensures
            r == pay_sync_address,
            final(self).contract_template == old(self).contract_template,
            final(self).all_child_contracts@ == old(self).all_child_contracts@.push(
                pay_sync_address,
            ),
            contracts_of(final(self).owner_contracts@, caller) == contracts_of(
                old(self).owner_contracts@,
                caller,
            ).push(pay_sync_address),
            forall|o: u64|
                o != caller ==> contracts_of(final(self).owner_contracts@, o) == contracts_of(
                    old(self).owner_contracts@,
                    o,
                ),
    {
        self.owner_contracts.push((caller, pay_sync_address));
        self.all_child_contracts.push(pay_sync_address);
        proof {
            assert(self.owner_contracts@.drop_last() =~= old(self).owner_contracts@);
        }
        pay_sync_address
    }

    /// The template address.
    pub fn get_contract_template(&self) -> (r: u64)
        ensures
            r == self.contract_template,
    {
        self.contract_template
    }

    /// The instances a creator deployed, in creation order.
    pub fn get_owner_contracts(&self, owner: u64) -> (r: Vec<u64>)
        ensures
            r@ == contracts_of(self.owner_contracts@, owner),
    {
        let n = self.owner_contracts.len();
        let mut found: Vec<u64> = Vec::new();
        let mut i: usize = 0;
        while i < n
            invariant
                0 <= i <= n,
                n == self.owner_contracts@.len(),
                found@ == contracts_of(self.owner_contracts@.take(i as int), owner),
            decreases n - i,
        {
            let entry = self.owner_contracts[i];
            if entry.0 == owner {
                found.push(entry.1);
            }
            proof {
                let t1 = self.owner_contracts@.take(i as int + 1);
                assert(t1.drop_last() =~= self.owner_contracts@.take(i as int));
                assert(t1.last() == self.owner_contracts@[i as int]);
            }
            i = i + 1;
        }
        proof {
            assert(self.owner_contracts@.take(n as int) =~= self.owner_contracts@);
        }
        found
    }

    /// Every instance ever deployed, in creation order.
    pub fn get_all_child_contracts(&self) -> (r: Vec<u64>)
        ensures
            r@ == self.all_child_contracts@,
    {
        let n = self.all_child_contracts.len();
        let mut out: Vec<u64> = Vec::new();
        let mut i: usize = 0;
        while i < n
            invariant
                0 <= i <= n,
                n == self.all_child_contracts@.len(),
                out@.len() == i,
                forall|q: int| 0 <= q < i ==> out@[q] == self.all_child_contracts@[q],
            decreases n - i,
        {
            out.push(self.all_child_contracts[i]);
            i = i + 1;
        }
        proof {
            assert(out@ =~= self.all_child_contracts@);
        }
        out
    }
}

} // verus!
