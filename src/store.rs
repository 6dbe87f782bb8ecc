use vstd::prelude::*;

use crate::deposit::{settle_deposit, settlement, storage_cost, DepositError};
use crate::pagination::{page_bounds, page_spec, parse_start, start_spec, PageError};
use crate::user_info::UserInfo;

verus! {

/// The key index after a submission from `id`: `id` is appended unless it is
/// already there.
pub open spec fn index_after(index: Seq<Seq<char>>, id: Seq<char>) -> Seq<Seq<char>> {
    if index.contains(id) {
        index
    } else {
        index.push(id)
    }
}

/// The payloads, position by position along `index`, after a submission of
/// `info` from `id`: the payload of `id` is replaced, or a new one appended.
pub open spec fn payloads_after(
    index: Seq<Seq<char>>,
    payloads: Seq<UserInfo>,
    id: Seq<char>,
    info: UserInfo,
) -> Seq<UserInfo> {
    if index.contains(id) {
        payloads.update(index.index_of(id), info)
    } else {
        payloads.push(info)
    }
}

/// The entry store that an index and its payloads stand for: each submitter
/// in the index, mapped to its payload.
pub open spec fn entry_map(index: Seq<Seq<char>>, payloads: Seq<UserInfo>) -> Map<Seq<char>, UserInfo> {
    Map::new(|k: Seq<char>| index.contains(k), |k: Seq<char>| payloads[index.index_of(k)])
}

/// The pairs at positions `[s, e)` of an index and its payloads, in order.
pub open spec fn listing(index: Seq<Seq<char>>, payloads: Seq<UserInfo>, s: int, e: int) -> Seq<(Seq<char>, UserInfo)> {
    Seq::new((e - s) as nat, |j: int| (index[s + j], payloads[s + j]))
}

/// The pairs of a listing as the library hands them out, viewed.
pub open spec fn pairs_view(v: Seq<(String, UserInfo)>) -> Seq<(Seq<char>, UserInfo)> {
    v.map_values(|p: (String, UserInfo)| (p.0@, p.1))
}

/// The result of a page request as the library hands it out, viewed.
pub open spec fn page_view(r: Result<Vec<(String, UserInfo)>, PageError>) -> Result<Seq<(Seq<char>, UserInfo)>, PageError> {
    match r {
        Ok(v) => Ok(pairs_view(v@)),
        Err(err) => Err(err),
    }
}

/// In a sequence without duplicates, an element's position is where it stands.
proof fn lemma_index_of_distinct<A>(s: Seq<A>, i: int)
    requires
        s.no_duplicates(),
        0 <= i < s.len(),
    ensures
        s.index_of(s[i]) == i,
{
    assert(s.contains(s[i]));
}

/// The recommendations received so far: one payload per submitter, and the
/// submitters in the order in which they first submitted.
pub struct Contract {
    keys: Vec<String>,
    values: Vec<UserInfo>,
}

impl Contract {
    /// The key index: each submitter once, in order of first submission.
    pub closed spec fn index(&self) -> Seq<Seq<char>> {
        self.keys@.map_values(|k: String| k@)
    }

    /// The payload of the submitter at each position of the index.
    pub closed spec fn payloads(&self) -> Seq<UserInfo> {
        self.values@
    }

    /// One payload per position of the index, and no submitter twice.
    pub open spec fn wf(&self) -> bool {
        &&& self.index().len() == self.payloads().len()
        &&& self.index().no_duplicates()
    }

    /// The entry store: each submitter's current payload.
    pub open spec fn entries(&self) -> Map<Seq<char>, UserInfo> {
        entry_map(self.index(), self.payloads())
    }

    /// The page from `start` for at most `limit` entries: the pairs of the
    /// positions that `page_spec` gives, or its error.
    pub open spec fn listed(&self, start: Option<u64>, limit: Option<u64>) -> Result<Seq<(Seq<char>, UserInfo)>, PageError> {
        match page_spec(self.index().len() as int, start, limit) {
            Ok((s, e)) => Ok(listing(self.index(), self.payloads(), s, e)),
            Err(err) => Err(err),
        }
    }

    /// An empty store.
    pub fn new() -> (r: Self)
        ensures
            r.wf(),
            r.index() == Seq::<Seq<char>>::empty(),
            r.payloads() == Seq::<UserInfo>::empty(),
    {
        let r = Contract { keys: Vec::new(), values: Vec::new() };
        assert(r.index() =~= Seq::<Seq<char>>::empty());
        r
    }

    /// Position of `id` in the index, if it has submitted.
    fn position(&self, id: &String) -> (r: Option<usize>)
        requires
            self.wf(),
        ensures
            match r {
                Some(i) => i < self.index().len() && self.index().index_of(id@) == i && self.index()[i as int] == id@,
                None => !self.index().contains(id@),
            },
    {
        let mut i: usize = 0;
        while i < self.keys.len()
            invariant
                self.wf(),
                i <= self.keys@.len(),
                forall|j: int| 0 <= j < i ==> self.index()[j] != id@,
            decreases self.keys@.len() - i,
        {
            if self.keys[i] == *id {
                proof {
                    lemma_index_of_distinct(self.index(), i as int);
                }
                return Some(i);
            }
            i += 1;
        }
        None
    }

    /// Records `info` as the payload of `id`: replaces the payload of a known
    /// submitter, or adds a new one and appends it to the index. Returns whether
    /// `id` was new.
    pub fn upsert(&mut self, id: String, info: UserInfo) -> (was_new: bool)
        requires
            old(self).wf(),
        ensures
            final(self).wf(),
            was_new == !old(self).index().contains(id@),
            final(self).index() == index_after(old(self).index(), id@),
            final(self).payloads() == payloads_after(old(self).index(), old(self).payloads(), id@, info),
            final(self).entries() == old(self).entries().insert(id@, info),
    {
        let ghost old_index = self.index();
        let ghost old_payloads = self.payloads();
        match self.position(&id) {
            Some(i) => {
                self.values.set(i, info);
                proof {
                    assert(self.index() =~= old_index);
                    assert(self.entries() =~= entry_map(old_index, old_payloads).insert(id@, info));
                }
                false
            },
            None => {
                let ghost key = id@;
                self.keys.push(id);
                self.values.push(info);
                proof {
                    assert(self.index() =~= old_index.push(key));
                    let n = old_index.len() as int;
                    assert(self.index()[n] == key);
                    lemma_index_of_distinct(self.index(), n);
                    assert forall|k: Seq<char>| old_index.contains(k) implies self.index().index_of(k) == old_index.index_of(k) by {
                        let j = old_index.index_of(k);
                        assert(self.index()[j] == k);
                        lemma_index_of_distinct(self.index(), j);
                    }
                    assert forall|k: Seq<char>| self.index().contains(k) <==> (old_index.contains(k) || k == key) by {
                        if self.index().contains(k) && k != key {
                            let j = self.index().index_of(k);
                            assert(old_index[j] == k);
                        }
                        if old_index.contains(k) {
                            assert(self.index()[old_index.index_of(k)] == k);
                        }
                    }
                    assert(self.entries() =~= entry_map(old_index, old_payloads).insert(key, info));
                }
                true
            },
        }
    }

    /// Number of distinct submitters so far: the length of the index.
    pub fn total_recommendations(&self) -> (r: u64)
        requires
            self.wf(),
        ensures
            r == self.index().len(),
    {
        self.keys.len() as u64
    }

    /// The current payload of `account_id`, or `None` if it never submitted.
    pub fn get_recommendation(&self, account_id: &String) -> (r: Option<UserInfo>)
        requires
            self.wf(),
        ensures
            r == (if self.entries().contains_key(account_id@) {
                Some(self.entries()[account_id@])
            } else {
                None::<UserInfo>
            }),
    {
        match self.position(account_id) {
            Some(i) => Some(self.values[i].copied()),
            None => None,
        }
    }

    /// A page of (submitter, payload) pairs in index order, from position
    /// `start` (default `0`) for at most `limit` entries (default: all the
    /// rest). An empty store gives an empty page whatever is asked; otherwise a
    /// start at or past the end fails with `OutOfRange`.
    pub fn list_range(&self, start: Option<u64>, limit: Option<u64>) -> (r: Result<Vec<(String, UserInfo)>, PageError>)
        requires
            self.wf(),
        ensures
            page_view(r) == self.listed(start, limit),
    {
        let n: usize = self.keys.len();
        let (s, e) = match page_bounds(n as u64, start, limit) {
            Ok((s, e)) => (s as usize, e as usize),
            Err(err) => return Err(err),
        };
        let mut out: Vec<(String, UserInfo)> = Vec::new();
        let mut i: usize = s;
        while i < e
            invariant
                self.wf(),
                s <= i <= e,
                e <= self.index().len(),
                self.index().len() == self.keys@.len(),
                pairs_view(out@) == listing(self.index(), self.payloads(), s as int, i as int),
            decreases e - i,
        {
            let k = self.keys[i].clone();
            let v = self.values[i].copied();
            let ghost prev = out@;
            out.push((k, v));
            proof {
                assert(out@ == prev.push((k, v)));
                assert(pairs_view(out@) =~= pairs_view(prev).push((k@, v)));
                assert(self.index()[i as int] == k@);
                assert(self.payloads()[i as int] == v);
                assert(pairs_view(out@) =~= listing(self.index(), self.payloads(), s as int, i + 1));
            }
            i += 1;
        }
        Ok(out)
    }

    /// As `list_range`, with the start given as decimal text. An empty store
    /// gives an empty page before the text is read; otherwise text that is not
    /// a decimal number fails with `BadStartFormat`.
    pub fn get_recommendations(&self, start: Option<String>, limit: Option<u64>) -> (r: Result<Vec<(String, UserInfo)>, PageError>)
        requires
            self.wf(),
        ensures
            page_view(r) == (if self.index().len() == 0 {
                Ok(Seq::empty())
            } else {
                match start {
                    None => self.listed(None, limit),
                    Some(t) => match start_spec(t@) {
                        Ok(s) => self.listed(Some(s), limit),
                        Err(err) => Err(err),
                    },
                }
            }),
    {
        if self.keys.len() == 0 {
            let out: Vec<(String, UserInfo)> = Vec::new();
            assert(pairs_view(out@) =~= Seq::empty());
            return Ok(out);
        }
        let s: Option<u64> = match start {
            None => None,
            Some(t) => match parse_start(t.as_str()) {
                Ok(s) => Some(s),
                Err(err) => return Err(err),
            },
        };
        self.list_range(s, limit)
    }

    /// Records a submission whose write takes `bytes_written` bytes of storage
    /// at `price_per_byte` each, paid from `attached_deposit`. When the deposit
    /// covers the cost, `info` is recorded as `signer`'s payload and the surplus
    /// to refund is returned; otherwise the call fails with
    /// `InsufficientDeposit` and the store is left as it was.
    pub fn recommend(
        &mut self,
        signer: String,
        info: UserInfo,
        bytes_written: u64,
        price_per_byte: u128,
        attached_deposit: u128,
    ) -> (r: Result<u128, DepositError>)
        requires
            old(self).wf(),
            storage_cost(bytes_written as int, price_per_byte as int) <= u128::MAX,
        ensures
            final(self).wf(),
            r == settlement(bytes_written as int, price_per_byte as int, attached_deposit as int),
            r is Ok ==> final(self).index() == index_after(old(self).index(), signer@)
                && final(self).payloads() == payloads_after(old(self).index(), old(self).payloads(), signer@, info),
            r is Err ==> *final(self) == *old(self),
    {
        let refund = settle_deposit(bytes_written, price_per_byte, attached_deposit);
        if refund.is_ok() {
            self.upsert(signer, info);
        }
        refund
    }
}

impl Default for Contract {
    fn default() -> (r: Self)
        ensures
            r.wf(),
            r.index() == Seq::<Seq<char>>::empty(),
            r.payloads() == Seq::<UserInfo>::empty(),
    {
        Contract::new()
    }
}

} // verus!
