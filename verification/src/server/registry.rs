//! The service marketplace's bookkeeping: listings by identifier, orders
//! by identifier, and each node's listings. Prices and ratings, which are
//! fractional, are kept beside these records by the caller.

use vstd::prelude::*;
use crate::table::{clone_strings, entry_keys, string_views, Table};

verus! {

/// Kinds of service a node can offer.
#[derive(Debug, PartialEq)]
pub enum ServiceCategory {
    Compute,
    Storage,
    Network,
    AIInference,
    Database,
    Custom(String),
}

/// The contents of a category.
pub enum CategoryView {
    Compute,
    Storage,
    Network,
    AIInference,
    Database,
    Custom(Seq<char>),
}

impl View for ServiceCategory {
    type V = CategoryView;

    open spec fn view(&self) -> CategoryView {
        match self {
            ServiceCategory::Compute => CategoryView::Compute,
            ServiceCategory::Storage => CategoryView::Storage,
            ServiceCategory::Network => CategoryView::Network,
            ServiceCategory::AIInference => CategoryView::AIInference,
            ServiceCategory::Database => CategoryView::Database,
            ServiceCategory::Custom(s) => CategoryView::Custom(s@),
        }
    }
}

impl Clone for ServiceCategory {
    fn clone(&self) -> (r: Self)
        ensures
            r@ == self@,
    {
        match self {
            ServiceCategory::Compute => ServiceCategory::Compute,
            ServiceCategory::Storage => ServiceCategory::Storage,
            ServiceCategory::Network => ServiceCategory::Network,
            ServiceCategory::AIInference => ServiceCategory::AIInference,
            ServiceCategory::Database => ServiceCategory::Database,
            ServiceCategory::Custom(s) => ServiceCategory::Custom(s.clone()),
        }
    }
}

/// The name of a category: its lowercase word, or the custom name.
pub open spec fn category_name(c: ServiceCategory) -> Seq<char> {
    match c {
        ServiceCategory::Compute => "compute"@,
        ServiceCategory::Storage => "storage"@,
        ServiceCategory::Network => "network"@,
        ServiceCategory::AIInference => "ai_inference"@,
        ServiceCategory::Database => "database"@,
        ServiceCategory::Custom(s) => s@,
    }
}

impl ServiceCategory {
    /// The category's name.
    pub fn as_str(&self) -> (r: &str)
        ensures
            r@ == category_name(*self),
    {
        proof {
            reveal_strlit("compute");
            reveal_strlit("storage");
            reveal_strlit("network");
            reveal_strlit("ai_inference");
            reveal_strlit("database");
        }
        match self {
            ServiceCategory::Compute => "compute",
            ServiceCategory::Storage => "storage",
            ServiceCategory::Network => "network",
            ServiceCategory::AIInference => "ai_inference",
            ServiceCategory::Database => "database",
            ServiceCategory::Custom(s) => s.as_str(),
        }
    }

    /// Whether two categories are the same (custom ones by name).
    pub fn same_as(&self, other: &ServiceCategory) -> (r: bool)
        ensures
            r <==> self@ == other@,
    {
        match (self, other) {
            (ServiceCategory::Compute, ServiceCategory::Compute) => true,
            (ServiceCategory::Storage, ServiceCategory::Storage) => true,
            (ServiceCategory::Network, ServiceCategory::Network) => true,
            (ServiceCategory::AIInference, ServiceCategory::AIInference) => true,
            (ServiceCategory::Database, ServiceCategory::Database) => true,
            (ServiceCategory::Custom(a), ServiceCategory::Custom(b)) => *a == *b,
            _ => false,
        }
    }
}

/// The stages of a service order.
#[derive(Debug, Clone, Copy, PartialEq, Eq, Structural)]
pub enum OrderStatus {
    Pending,
    Accepted,
    Active,
    Completed,
    Cancelled,
    Disputed,
}

/// What the registry keeps of a listing.
#[derive(Debug)]
pub struct ListingRecord {
    pub id: String,
    pub node_id: String,
    pub category: ServiceCategory,
    pub available: bool,
}

/// The contents of a listing record.
pub struct ListingView {
    pub id: Seq<char>,
    pub node_id: Seq<char>,
    pub category: CategoryView,
    pub available: bool,
}

impl View for ListingRecord {
    type V = ListingView;

    open spec fn view(&self) -> ListingView {
        ListingView { id: self.id@, node_id: self.node_id@, category: self.category@, available: self.available }
    }
}

impl Clone for ListingRecord {
    fn clone(&self) -> (r: Self)
        ensures
            r@ == self@,
    {
        ListingRecord {
            id: self.id.clone(),
            node_id: self.node_id.clone(),
            category: self.category.clone(),
            available: self.available,
        }
    }
}

/// What the registry keeps of an order.
#[derive(Debug)]
pub struct OrderRecord {
    pub id: String,
    pub listing_id: String,
    pub buyer: String,
    pub seller: String,
    pub duration_hours: u32,
    pub status: OrderStatus,
    pub created_at: u64,
}

/// The contents of an order record.
pub struct OrderView {
    pub id: Seq<char>,
    pub listing_id: Seq<char>,
    pub buyer: Seq<char>,
    pub seller: Seq<char>,
    pub duration_hours: u32,
    pub status: OrderStatus,
    pub created_at: u64,
}

impl View for OrderRecord {
    type V = OrderView;

    open spec fn view(&self) -> OrderView {
        OrderView {
            id: self.id@,
            listing_id: self.listing_id@,
            buyer: self.buyer@,
            seller: self.seller@,
            duration_hours: self.duration_hours,
            status: self.status,
            created_at: self.created_at,
        }
    }
}

impl Clone for OrderRecord {
    fn clone(&self) -> (r: Self)
        ensures
            r@ == self@,
    {
        OrderRecord {
            id: self.id.clone(),
            listing_id: self.listing_id.clone(),
            buyer: self.buyer.clone(),
            seller: self.seller.clone(),
            duration_hours: self.duration_hours,
            status: self.status,
            created_at: self.created_at,
        }
    }
}

/// The listings of the entries, in order, that pass `keep`.
pub open spec fn listings_where(e: Seq<(String, ListingRecord)>, keep: spec_fn(ListingView) -> bool) -> Seq<ListingView>
    decreases e.len(),
{
    if e.len() == 0 {
        Seq::empty()
    } else {
        let rest = listings_where(e.drop_last(), keep);
        if keep(e.last().1@) { rest.push(e.last().1@) } else { rest }
    }
}

/// The orders of the entries, in order, sold by `node`.
pub open spec fn orders_of(e: Seq<(String, OrderRecord)>, node: Seq<char>) -> Seq<OrderView>
    decreases e.len(),
{
    if e.len() == 0 {
        Seq::empty()
    } else {
        let rest = orders_of(e.drop_last(), node);
        if e.last().1.seller@ == node { rest.push(e.last().1@) } else { rest }
    }
}

/// The contents of each listing record, in order.
pub open spec fn listing_views(v: Seq<ListingRecord>) -> Seq<ListingView> {
    Seq::new(v.len(), |i: int| v[i]@)
}

/// The contents of each order record, in order.
pub open spec fn order_views(v: Seq<OrderRecord>) -> Seq<OrderView> {
    Seq::new(v.len(), |i: int| v[i]@)
}

/// Which listings a query keeps: those in `category` when one is given,
/// available ones when `available_only`, those of `node` when one is
/// given.
pub open spec fn listing_filter(category: Option<CategoryView>, available_only: bool, node: Option<Seq<char>>)
    -> spec_fn(ListingView) -> bool
{
    |l: ListingView| (!available_only || l.available)
        && (category matches Some(c) ==> l.category == c)
        && (node matches Some(n) ==> l.node_id == n)
}

/// The contents of an optional category.
pub open spec fn category_opt(c: Option<ServiceCategory>) -> Option<CategoryView> {
    match c {
        Some(x) => Some(x@),
        None => None,
    }
}

/// The text of an optional string.
pub open spec fn text_opt(o: Option<String>) -> Option<Seq<char>> {
    match o {
        Some(s) => Some(s@),
        None => None,
    }
}

/// The sequence without the occurrences of `x`.
pub open spec fn without(s: Seq<Seq<char>>, x: Seq<char>) -> Seq<Seq<char>>
    decreases s.len(),
{
    if s.len() == 0 {
        s
    } else {
        let rest = without(s.drop_last(), x);
        if s.last() == x { rest } else { rest.push(s.last()) }
    }
}

/// The registry.
pub struct ServiceRegistry {
    listings: Table<ListingRecord>,
    orders: Table<OrderRecord>,
    node_services: Table<Vec<String>>,
}

impl ServiceRegistry {
    /// The listings, by identifier.
    pub closed spec fn listing_map(&self) -> Map<Seq<char>, ListingView> {
        Map::new(|k: Seq<char>| self.listings.map().contains_key(k), |k: Seq<char>| self.listings.map()[k]@)
    }

    /// The listings, in registration order.
    pub closed spec fn listing_entries(&self) -> Seq<(String, ListingRecord)> {
        self.listings.entries()
    }

    /// The orders, by identifier.
    pub closed spec fn order_map(&self) -> Map<Seq<char>, OrderView> {
        Map::new(|k: Seq<char>| self.orders.map().contains_key(k), |k: Seq<char>| self.orders.map()[k]@)
    }

    /// The orders, in creation order.
    pub closed spec fn order_entries(&self) -> Seq<(String, OrderRecord)> {
        self.orders.entries()
    }

    /// The listing identifiers recorded for a node, in order.
    pub closed spec fn node_listing_ids(&self, node: Seq<char>) -> Seq<Seq<char>> {
        if self.node_services.map().contains_key(node) { string_views(self.node_services.map()[node]@) } else { Seq::empty() }
    }

    /// Keys are distinct in each table.
    pub closed spec fn wf(&self) -> bool {
        self.listings.wf() && self.orders.wf() && self.node_services.wf()
    }

    /// An empty registry.
    pub fn new() -> (r: Self)
        ensures
            r.wf(),
            r.listing_map() == Map::<Seq<char>, ListingView>::empty(),
            r.order_map() == Map::<Seq<char>, OrderView>::empty(),
            r.listing_entries().len() == 0,
            r.order_entries().len() == 0,
            forall|n: Seq<char>| #[trigger] r.node_listing_ids(n) == Seq::<Seq<char>>::empty(),
    {
        let r = ServiceRegistry { listings: Table::new(), orders: Table::new(), node_services: Table::new() };
        assert(r.listing_map() =~= Map::<Seq<char>, ListingView>::empty());
        assert(r.order_map() =~= Map::<Seq<char>, OrderView>::empty());
        r
    }

    /// Register a listing: refused ("Listing already exists") when its
    /// identifier is taken; otherwise kept, and its identifier appended to
    /// its node's list.
    pub fn register(&mut self, listing: ListingRecord) -> (r: core::result::Result<(), String>)
        requires
            old(self).wf(),
        ensures
            final(self).wf(),
            r is Err <==> old(self).listing_map().contains_key(listing.id@),
            r matches Err(e) ==> e@ == "Listing already exists"@,
            r is Err ==> final(self).listing_map() == old(self).listing_map()
                && final(self).order_map() == old(self).order_map()
                && forall|n: Seq<char>| #[trigger] final(self).node_listing_ids(n) == old(self).node_listing_ids(n),
            r is Ok ==> final(self).listing_map() == old(self).listing_map().insert(listing.id@, listing@),
            r is Ok ==> final(self).order_map() == old(self).order_map(),
            r is Err ==> final(self).listing_entries() == old(self).listing_entries(),
            r is Ok ==> final(self).listing_entries().len() == old(self).listing_entries().len() + 1
                && final(self).listing_entries().drop_last() == old(self).listing_entries()
                && final(self).listing_entries().last().0@ == listing.id@
                && final(self).listing_entries().last().1@ == listing@,
            r is Ok ==> forall|n: Seq<char>| #[trigger] final(self).node_listing_ids(n) == if n == listing.node_id@ {
                old(self).node_listing_ids(n).push(listing.id@)
            } else {
                old(self).node_listing_ids(n)
            },
    {
        let id = listing.id.clone();
        if self.listings.get(&id).is_some() {
            proof { reveal_strlit("Listing already exists"); }
            return Err("Listing already exists".to_string());
        }
        let ghost lv = listing@;
        let node = listing.node_id.clone();
        let ghost l0 = self.listing_map();
        let ghost n0 = self.node_services.map();
        let key = id.clone();
        let ghost pair = (key, listing);
        self.listings.insert(key, listing);
        assert(self.listing_map() =~= l0.insert(lv.id, lv));
        assert(self.listings.entries().last() == pair);
        let mut ids = match self.node_services.get(&node) {
            Some(v) => clone_strings(v),
            None => Vec::new(),
        };
        let ghost before = string_views(ids@);
        ids.push(id);
        assert(string_views(ids@) =~= before.push(lv.id));
        self.node_services.insert(node, ids);
        proof {
            assert forall|n: Seq<char>| #[trigger] self.node_listing_ids(n) == if n == lv.node_id {
                old(self).node_listing_ids(n).push(lv.id)
            } else {
                old(self).node_listing_ids(n)
            } by {
                if n == lv.node_id {
                    if !n0.contains_key(n) {
                        assert(before =~= Seq::<Seq<char>>::empty());
                    }
                }
            }
        }
        Ok(())
    }

    /// Take a listing out: refused ("Listing not found") when unknown;
    /// otherwise its identifier is also taken out of its node's list.
    pub fn unregister(&mut self, listing_id: &str) -> (r: core::result::Result<(), String>)
        requires
            old(self).wf(),
        ensures
            final(self).wf(),
            r is Ok <==> old(self).listing_map().contains_key(listing_id@),
            r matches Err(e) ==> e@ == "Listing not found"@,
            final(self).listing_map() == old(self).listing_map().remove(listing_id@),
            final(self).order_map() == old(self).order_map(),
            r is Err ==> forall|n: Seq<char>| #[trigger] final(self).node_listing_ids(n) == old(self).node_listing_ids(n),
            r is Err ==> final(self).listing_entries() == old(self).listing_entries(),
            r is Ok ==> final(self).listing_entries()
                == old(self).listing_entries().remove(entry_keys(old(self).listing_entries()).index_of(listing_id@)),
            r is Ok ==> forall|n: Seq<char>| #[trigger] final(self).node_listing_ids(n) == if n == old(self).listing_map()[listing_id@].node_id {
                without(old(self).node_listing_ids(n), listing_id@)
            } else {
                old(self).node_listing_ids(n)
            },
    {
        let key = listing_id.to_string();
        let ghost l0 = self.listing_map();
        let ghost n0 = self.node_services.map();
        let removed = self.listings.remove(&key);
        assert(self.listing_map() =~= l0.remove(key@));
        let listing = match removed {
            Some(l) => l,
            None => {
                proof { reveal_strlit("Listing not found"); }
                return Err("Listing not found".to_string());
            },
        };
        match self.node_services.get(&listing.node_id) {
            Some(v) => {
                let ghost sv = string_views(v@);
                let mut kept: Vec<String> = Vec::new();
                let mut i: usize = 0;
                while i < v.len()
                    invariant
                        i <= v@.len(),
                        sv == string_views(v@),
                        string_views(kept@) == without(sv.take(i as int), key@),
                    decreases v.len() - i,
                {
                    let ghost prev = string_views(kept@);
                    proof {
                        assert(sv.take(i + 1).drop_last() =~= sv.take(i as int));
                        assert(sv.take(i + 1).last() == v@[i as int]@);
                    }
                    if v[i] == key {
                    } else {
                        kept.push(v[i].clone());
                        assert(string_views(kept@) =~= prev.push(v@[i as int]@));
                    }
                    i = i + 1;
                }
                assert(sv.take(sv.len() as int) =~= sv);
                self.node_services.insert(listing.node_id.clone(), kept);
            },
            None => {
                proof {
                    assert(without(Seq::<Seq<char>>::empty(), key@) =~= Seq::<Seq<char>>::empty());
                }
            },
        }
        Ok(())
    }

    /// A listing, if registered.
    pub fn get(&self, listing_id: &str) -> (r: Option<ListingRecord>)
        requires
            self.wf(),
        ensures
            r is Some <==> self.listing_map().contains_key(listing_id@),
            r matches Some(l) ==> l@ == self.listing_map()[listing_id@],
    {
        let key = listing_id.to_string();
        match self.listings.get(&key) {
            Some(l) => Some(l.clone()),
            None => None,
        }
    }

    /// Record an order: refused when its identifier is taken ("Order
    /// already exists"), when its listing is unknown ("Listing not found")
    /// or unavailable ("Service is not available"), checked in that order.
    pub fn create_order(&mut self, order: OrderRecord) -> (r: core::result::Result<(), String>)
        requires
            old(self).wf(),
        ensures
            final(self).wf(),
            final(self).listing_map() == old(self).listing_map(),
            forall|n: Seq<char>| #[trigger] final(self).node_listing_ids(n) == old(self).node_listing_ids(n),
            old(self).order_map().contains_key(order.id@) ==> (r matches Err(e) && e@ == "Order already exists"@),
            !old(self).order_map().contains_key(order.id@) && !old(self).listing_map().contains_key(order.listing_id@) ==>
                (r matches Err(e) && e@ == "Listing not found"@),
            !old(self).order_map().contains_key(order.id@) && old(self).listing_map().contains_key(order.listing_id@)
                && !old(self).listing_map()[order.listing_id@].available ==>
                (r matches Err(e) && e@ == "Service is not available"@),
            r is Ok <==> (!old(self).order_map().contains_key(order.id@) && old(self).listing_map().contains_key(order.listing_id@)
                && old(self).listing_map()[order.listing_id@].available),
            r is Err ==> final(self).order_map() == old(self).order_map(),
            r is Ok ==> final(self).order_map() == old(self).order_map().insert(order.id@, order@),
            final(self).listing_entries() == old(self).listing_entries(),
            r is Err ==> final(self).order_entries() == old(self).order_entries(),
            r is Ok ==> final(self).order_entries().len() == old(self).order_entries().len() + 1
                && final(self).order_entries().drop_last() == old(self).order_entries()
                && final(self).order_entries().last().0@ == order.id@
                && final(self).order_entries().last().1@ == order@,
    {
        let id = order.id.clone();
        if self.orders.get(&id).is_some() {
            proof { reveal_strlit("Order already exists"); }
            return Err("Order already exists".to_string());
        }
        match self.listings.get(&order.listing_id) {
            Some(l) => {
                if !l.available {
                    proof { reveal_strlit("Service is not available"); }
                    return Err("Service is not available".to_string());
                }
            },
            None => {
                proof { reveal_strlit("Listing not found"); }
                return Err("Listing not found".to_string());
            },
        }
        let ghost ov = order@;
        let ghost o0 = self.order_map();
        let ghost pair = (id, order);
        self.orders.insert(id, order);
        assert(self.order_map() =~= o0.insert(ov.id, ov));
        assert(self.orders.entries().last() == pair);
        Ok(())
    }

    /// Set an order's status; refused ("Order not found") when unknown.
    pub fn update_order_status(&mut self, order_id: &str, status: OrderStatus) -> (r: core::result::Result<(), String>)
        requires
            old(self).wf(),
        ensures
            final(self).wf(),
            final(self).listing_map() == old(self).listing_map(),
            forall|n: Seq<char>| #[trigger] final(self).node_listing_ids(n) == old(self).node_listing_ids(n),
            r is Ok <==> old(self).order_map().contains_key(order_id@),
            r matches Err(e) ==> e@ == "Order not found"@ && final(self).order_map() == old(self).order_map(),
            r is Ok ==> final(self).order_map() == old(self).order_map().insert(order_id@,
                OrderView { status, ..old(self).order_map()[order_id@] }),
    {
        let key = order_id.to_string();
        let mut order = match self.orders.get(&key) {
            Some(o) => o.clone(),
            None => {
                proof { reveal_strlit("Order not found"); }
                return Err("Order not found".to_string());
            },
        };
        order.status = status;
        let ghost ov = order@;
        let ghost o0 = self.order_map();
        self.orders.insert(key, order);
        assert(self.order_map() =~= o0.insert(order_id@, ov));
        Ok(())
    }

    /// The orders sold by a node, in creation order.
    pub fn get_node_orders(&self, node_id: &str) -> (r: Vec<OrderRecord>)
        ensures
            order_views(r@) == orders_of(self.order_entries(), node_id@),
    {
        let node = node_id.to_string();
        let mut r: Vec<OrderRecord> = Vec::new();
        let mut i: usize = 0;
        while i < self.orders.len()
            invariant
                i <= self.order_entries().len(),
                node@ == node_id@,
                order_views(r@) == orders_of(self.order_entries().take(i as int), node_id@),
            decreases self.order_entries().len() - i,
        {
            let e = self.orders.entry(i);
            proof {
                assert(self.order_entries().take(i + 1).drop_last() =~= self.order_entries().take(i as int));
            }
            if e.1.seller == node {
                let ghost prev = r@;
                r.push(e.1.clone());
                assert(order_views(r@) =~= order_views(prev).push(e.1@));
            }
            i = i + 1;
        }
        assert(self.order_entries().take(self.order_entries().len() as int) =~= self.order_entries());
        r
    }

    /// The listings that `listing_filter` keeps, in registration order.
    fn listings_matching(&self, category: &Option<ServiceCategory>, available_only: bool, node: &Option<String>)
        -> (r: Vec<ListingRecord>)
        ensures
            listing_views(r@) == listings_where(self.listing_entries(), listing_filter(category_opt(*category),
                available_only, text_opt(*node))),
    {
        let ghost keep = listing_filter(category_opt(*category), available_only,
            text_opt(*node));
        let mut r: Vec<ListingRecord> = Vec::new();
        let mut i: usize = 0;
        while i < self.listings.len()
            invariant
                i <= self.listing_entries().len(),
                keep == listing_filter(category_opt(*category), available_only,
                    text_opt(*node)),
                listing_views(r@) == listings_where(self.listing_entries().take(i as int), keep),
            decreases self.listing_entries().len() - i,
        {
            let e = self.listings.entry(i);
            proof {
                assert(self.listing_entries().take(i + 1).drop_last() =~= self.listing_entries().take(i as int));
                assert(self.listing_entries().take(i + 1).last() == *e);
            }
            let avail_ok = !available_only || e.1.available;
            let cat_ok = match category {
                Some(c) => e.1.category.same_as(c),
                None => true,
            };
            let node_ok = match node {
                Some(n) => e.1.node_id == *n,
                None => true,
            };
            assert(keep(e.1@) == (avail_ok && cat_ok && node_ok));
            if avail_ok && cat_ok && node_ok {
                let ghost prev = r@;
                r.push(e.1.clone());
                assert(listing_views(r@) =~= listing_views(prev).push(e.1@));
            }
            i = i + 1;
        }
        assert(self.listing_entries().take(self.listing_entries().len() as int) =~= self.listing_entries());
        r
    }

    /// The listings of a node, in registration order.
    pub fn get_node_listings(&self, node_id: &str) -> (r: Vec<ListingRecord>)
        ensures
            listing_views(r@) == listings_where(self.listing_entries(), listing_filter(None, false, Some(node_id@))),
    {
        let none: Option<ServiceCategory> = None;
        self.listings_matching(&none, false, &Some(node_id.to_string()))
    }

    /// The listings in a category (when one is given), available ones only
    /// when asked, in registration order. Filters on rating and price are
    /// the caller's.
    pub fn search(&self, category: Option<ServiceCategory>, available_only: bool) -> (r: Vec<ListingRecord>)
        ensures
            listing_views(r@) == listings_where(self.listing_entries(),
                listing_filter(category_opt(category), available_only, None)),
    {
        let none: Option<String> = None;
        self.listings_matching(&category, available_only, &none)
    }
}

} // verus!
