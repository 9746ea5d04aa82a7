use vstd::prelude::*;
use vstd::string::StrSliceExecFns;

verus! {

/// A request that a benchmark client sends to the replicated calculator.
#[derive(Debug, Clone, Copy, PartialEq, Eq, Structural)]
pub enum Action {
    Sqrt,
    MultiplyByTwo,
    NoOp,
}

/// The request a client sends for a random draw: `Sqrt` for an even draw,
/// `MultiplyByTwo` for an odd one.
pub fn choose_action(draw: u64) -> (action: Action)
    ensures
        action == (if draw % 2 == 0 { Action::Sqrt } else { Action::MultiplyByTwo }),
{
    assert((draw & 1 == 0) == (draw % 2 == 0)) by (bit_vector);
    if draw & 1 == 0 {
        Action::Sqrt
    } else {
        Action::MultiplyByTwo
    }
}

/// The smallest client id, or `u32::MAX` when there is no client.
pub fn first_client_id(client_ids: &Vec<u32>) -> (first: u32)
    ensures
        forall|i: int| 0 <= i < client_ids@.len() ==> first <= #[trigger] client_ids@[i],
        client_ids@.len() == 0 ==> first == u32::MAX,
        client_ids@.len() > 0 ==> client_ids@.contains(first),
{
    let mut first: u32 = u32::MAX;
    let mut k: usize = 0;
    while k < client_ids.len()
        invariant
            k <= client_ids@.len(),
            forall|i: int| 0 <= i < k ==> first <= #[trigger] client_ids@[i],
            k == 0 ==> first == u32::MAX,
            k > 0 ==> exists|i: int| 0 <= i < k && client_ids@[i] == first,
        decreases client_ids@.len() - k,
    {
        if client_ids[k] < first {
            first = client_ids[k];
        }
        k = k + 1;
    }
    proof {
        if client_ids@.len() > 0 {
            let i = choose|i: int| 0 <= i < k && client_ids@[i] == first;
            assert(client_ids@[i] == first);
        }
    }
    first
}

/// The node ids that receive a key pair, in the order the keys are drawn:
/// the clients first, numbered from 1000, then the replicas, numbered from 0.
pub fn key_owner_ids(n_clients: usize, n_replicas: usize) -> (ids: Vec<u64>)
    requires
        n_clients + n_replicas <= usize::MAX,
        n_clients + 1000 <= u64::MAX,
    ensures
        ids@.len() == n_clients + n_replicas,
        forall|i: int| 0 <= i < n_clients ==> #[trigger] ids@[i] == 1000 + i,
        forall|j: int| 0 <= j < n_replicas ==> #[trigger] ids@[n_clients + j] == j,
{
    let mut ids: Vec<u64> = Vec::new();
    let mut i: usize = 0;
    while i < n_clients
        invariant
            i <= n_clients,
            n_clients + 1000 <= u64::MAX,
            ids@.len() == i,
            forall|k: int| 0 <= k < i ==> #[trigger] ids@[k] == 1000 + k,
        decreases n_clients - i,
    {
        ids.push(1000 + i as u64);
        i = i + 1;
    }
    let mut j: usize = 0;
    while j < n_replicas
        invariant
            j <= n_replicas,
            n_clients + n_replicas <= usize::MAX,
            ids@.len() == n_clients + j,
            forall|k: int| 0 <= k < n_clients ==> #[trigger] ids@[k] == 1000 + k,
            forall|k: int| 0 <= k < j ==> #[trigger] ids@[n_clients + k] == k,
        decreases n_replicas - j,
    {
        ids.push(j as u64);
        j = j + 1;
    }
    ids
}

/// What a launched process runs.
#[derive(Debug, Clone, Copy, PartialEq, Eq, Structural)]
pub enum RunMode {
    /// Every configured replica, each on a thread of its own.
    AllReplicas,
    /// The one replica named on the command line.
    SingleReplica,
    /// The benchmark clients.
    Clients,
}

/// Whether an environment flag is set: it is, exactly when its value is "1".
pub open spec fn flag_set(value: Option<String>) -> bool {
    match value {
        Some(v) => v@ == seq!['1'],
        None => false,
    }
}

/// A flag counts as set exactly when its value is the one-character string
/// "1": an unset flag, an empty value, "0", "2", "11" or " 1" all leave it unset.
pub proof fn lemma_flag_set_only_by_one(value: Option<String>)
    ensures
        flag_set(value) <==> (value matches Some(v) && v@.len() == 1 && v@[0] == '1'),
{
    if let Some(v) = value {
        if v@.len() == 1 && v@[0] == '1' {
            assert(v@ =~= seq!['1']);
        }
    }
}

fn flag_enabled(value: &Option<String>) -> (set: bool)
    ensures
        set == flag_set(*value),
        set <==> (value matches Some(v) && v@ == seq!['1']),
{
    match value {
        Some(v) => {
            let s = v.as_str();
            if s.unicode_len() == 1 {
                let c = s.get_char(0);
                if c == '1' {
                    assert(s@ =~= seq!['1']);
                }
                c == '1'
            } else {
                false
            }
        },
        None => false,
    }
}

/// The run mode chosen by the values of the client flag and the
/// single-server flag (each `None` when unset): clients when the client flag
/// is set; otherwise one replica when the single-server flag is set, and all
/// replicas when it is not.
pub fn run_mode(client_flag: Option<String>, single_server_flag: Option<String>) -> (mode: RunMode)
    ensures
        mode == (if flag_set(client_flag) {
            RunMode::Clients
        } else if flag_set(single_server_flag) {
            RunMode::SingleReplica
        } else {
            RunMode::AllReplicas
        }),
        mode == RunMode::Clients <==> (client_flag matches Some(v) && v@ == seq!['1']),
        mode == RunMode::SingleReplica <==> (!(client_flag matches Some(v) && v@ == seq!['1'])
            && (single_server_flag matches Some(w) && w@ == seq!['1'])),
{
    if flag_enabled(&client_flag) {
        RunMode::Clients
    } else if flag_enabled(&single_server_flag) {
        RunMode::SingleReplica
    } else {
        RunMode::AllReplicas
    }
}

} // verus!
