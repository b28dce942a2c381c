use vstd::prelude::*;

use crate::config::LndNodeConfig;
use crate::error::LndConnectError;

verus! {

/// The aliases of a sequence of node configurations, in order.
pub open spec fn config_aliases(configs: Seq<LndNodeConfig>) -> Seq<Seq<char>> {
    configs.map_values(|c: LndNodeConfig| c.alias@)
}

/// The alias at `i` is accepted: it is not empty and no earlier alias equals it.
pub open spec fn alias_accepted(aliases: Seq<Seq<char>>, i: int) -> bool {
    &&& aliases[i].len() > 0
    &&& forall|j: int| 0 <= j < i ==> aliases[j] != aliases[i]
}

/// Every alias is accepted.
pub open spec fn all_aliases_accepted(aliases: Seq<Seq<char>>) -> bool {
    forall|i: int| 0 <= i < aliases.len() ==> #[trigger] alias_accepted(aliases, i)
}

/// `i` is the first position whose alias is not accepted.
pub open spec fn first_rejected(aliases: Seq<Seq<char>>, i: int) -> bool {
    &&& 0 <= i < aliases.len()
    &&& !alias_accepted(aliases, i)
    &&& forall|j: int| 0 <= j < i ==> #[trigger] alias_accepted(aliases, j)
}

/// Checks the aliases of a set of node configurations, in order, before any
/// node is contacted. The first configuration whose alias is empty gives
/// `EmptyAlias`; the first whose alias repeats an earlier one gives
/// `DuplicateAlias` with that alias. When every alias is accepted, the
/// configurations come back unchanged.
pub fn validate_node_configs(configs: Vec<LndNodeConfig>) -> (res: Result<
    Vec<LndNodeConfig>,
    LndConnectError,
>)
    ensures
        res is Ok <==> all_aliases_accepted(config_aliases(configs@)),
        match res {
            Ok(accepted) => accepted@ == configs@,
            Err(LndConnectError::EmptyAlias) => exists|i: int|
                first_rejected(config_aliases(configs@), i) && configs@[i].alias@.len() == 0,
            Err(LndConnectError::DuplicateAlias(alias)) => exists|i: int|
                first_rejected(config_aliases(configs@), i) && configs@[i].alias@.len() > 0
                    && alias@ == configs@[i].alias@,
            Err(LndConnectError::NodeConnect { .. }) => false,
        },
{
    let ghost aliases = config_aliases(configs@);
    let mut seen: Vec<String> = Vec::new();
    let mut i: usize = 0;
    while i < configs.len()
        invariant
            aliases == config_aliases(configs@),
            0 <= i <= configs.len(),
            seen@.len() == i,
            forall|j: int| 0 <= j < i ==> (#[trigger] seen@[j])@ == aliases[j],
            forall|j: int| 0 <= j < i ==> #[trigger] alias_accepted(aliases, j),
        decreases configs.len() - i,
    {
        let alias = &configs[i].alias;
        assert(aliases[i as int] == alias@);
        if alias.as_str().is_empty() {
            assert(first_rejected(aliases, i as int));
            assert(!all_aliases_accepted(aliases));
            return Err(LndConnectError::EmptyAlias);
        }
        let mut k: usize = 0;
        while k < i
            invariant
                0 <= k <= i,
                i == seen@.len(),
                i < configs@.len(),
                aliases == config_aliases(configs@),
                alias@ == aliases[i as int],
                alias@.len() > 0,
                forall|j: int| 0 <= j < i ==> #[trigger] alias_accepted(aliases, j),
                forall|j: int| 0 <= j < i ==> (#[trigger] seen@[j])@ == aliases[j],
                forall|m: int| 0 <= m < k ==> aliases[m] != aliases[i as int],
            decreases i - k,
        {
            if seen[k].eq(alias) {
                assert(aliases[k as int] == aliases[i as int]);
                assert(first_rejected(aliases, i as int));
                let repeated = alias.clone();
                assert(repeated@ == configs@[i as int].alias@);
                return Err(LndConnectError::DuplicateAlias(repeated));
            }
            k = k + 1;
        }
        assert(alias_accepted(aliases, i as int));
        seen.push(alias.clone());
        i = i + 1;
    }
    Ok(configs)
}

} // verus!
