//! App store listings: publishing, purchases and download statistics.
//!
//! Calls into other contracts (reputation, fact packages, tokens, license
//! NFTs) are made by the host around these functions; their answers are
//! handed in, and the functions decide.
use vstd::prelude::*;
use vstd::string::StringSliceAdditionalSpecFns;
use crate::codec::{u64_le_bytes, decimal_digits, u64_to_decimal, push_u64_le, append_bytes};
use crate::host::{spec_u64_or_zero, load_u64_or_zero, save_u64, key_with, lemma_u64_saved, spec_load, load_bytes, Event, event_log, emit};
use crate::store::{KvStore, prefix_up_to};

verus! {

/// App categories.
#[derive(Clone, Copy, PartialEq, Eq, Debug, Structural)]
pub enum AppCategory {
    Productivity,
    Gaming,
    DeFi,
    Social,
    DevTools,
    Media,
}

/// License types.
#[derive(Clone, Copy, PartialEq, Eq, Debug, Structural)]
pub enum LicenseType {
    /// Single user, non-transferable.
    Personal,
    /// Transferable, commercial use.
    Commercial,
    /// Multi-seat, transferable.
    Enterprise,
}

/// App listing status.
#[derive(Clone, Copy, PartialEq, Eq, Debug, Structural)]
pub enum AppStatus {
    Active,
    Suspended,
    Deprecated,
}

impl AppCategory {
    pub open spec fn spec_code(self) -> u8 {
        match self {
            AppCategory::Productivity => 0,
            AppCategory::Gaming => 1,
            AppCategory::DeFi => 2,
            AppCategory::Social => 3,
            AppCategory::DevTools => 4,
            AppCategory::Media => 5,
        }
    }

    /// The byte that stands for the category in storage keys.
    pub fn code(self) -> (r: u8)
        ensures
            r == self.spec_code(),
    {
        match self {
            AppCategory::Productivity => 0,
            AppCategory::Gaming => 1,
            AppCategory::DeFi => 2,
            AppCategory::Social => 3,
            AppCategory::DevTools => 4,
            AppCategory::Media => 5,
        }
    }
}

impl LicenseType {
    pub open spec fn spec_code(self) -> u8 {
        match self {
            LicenseType::Personal => 0,
            LicenseType::Commercial => 1,
            LicenseType::Enterprise => 2,
        }
    }

    /// The byte that stands for the license type.
    pub fn code(self) -> (r: u8)
        ensures
            r == self.spec_code(),
    {
        match self {
            LicenseType::Personal => 0,
            LicenseType::Commercial => 1,
            LicenseType::Enterprise => 2,
        }
    }
}

impl AppStatus {
    pub open spec fn spec_code(self) -> u8 {
        match self {
            AppStatus::Active => 0,
            AppStatus::Suspended => 1,
            AppStatus::Deprecated => 2,
        }
    }

    /// The byte that stands for the status.
    pub fn code(self) -> (r: u8)
        ensures
            r == self.spec_code(),
    {
        match self {
            AppStatus::Active => 0,
            AppStatus::Suspended => 1,
            AppStatus::Deprecated => 2,
        }
    }
}

/// Platform fee in basis points (100 = 1%).
pub const PLATFORM_FEE_BPS: u64 = 100;
pub const BASIS_POINTS: u64 = 10000;

/// Minimum reputation to publish apps.
pub const MIN_PUBLISHER_REPUTATION: i64 = 100;

/// A storage key made of a prefix and the eight little-endian bytes of an id.
pub open spec fn storage_key(prefix: Seq<u8>, id: u64) -> Seq<u8> {
    prefix + u64_le_bytes(id)
}

/// The id of the license NFT contract of an app: `nft_app_` and the
/// app id in decimal.
pub open spec fn nft_contract_id(app_id: u64) -> Seq<u8> {
    "nft_app_".spec_bytes() + decimal_digits(app_id as nat)
}

/// The category index entry of an app.
pub open spec fn category_key(category: u8, app_id: u64) -> Seq<u8> {
    "category:".spec_bytes() + seq![category, 58u8] + u64_le_bytes(app_id)
}

/// The author index entry of an app.
pub open spec fn author_key(author: Seq<u8>, app_id: u64) -> Seq<u8> {
    "author:".spec_bytes() + author + seq![58u8] + u64_le_bytes(app_id)
}

pub open spec fn app_key(app_id: u64) -> Seq<u8> {
    storage_key("app:".spec_bytes(), app_id)
}

pub open spec fn downloads_key(app_id: u64) -> Seq<u8> {
    storage_key("downloads:".spec_bytes(), app_id)
}

pub open spec fn revenue_key(app_id: u64) -> Seq<u8> {
    storage_key("revenue:".spec_bytes(), app_id)
}

pub open spec fn featured_key(app_id: u64) -> Seq<u8> {
    storage_key("featured:".spec_bytes(), app_id)
}

/// The id given to an app: a wrapping combination of the name's length and
/// the creator's DID length.
pub open spec fn app_id_for(name_len: nat, creator_len: nat) -> u64 {
    (name_len as u64).wrapping_mul(31).wrapping_add(creator_len as u64).wrapping_mul(1000000)
}

/// Derives the id of a new app.
pub fn generate_app_id(name: &[u8], creator_did: &[u8]) -> (r: u64)
    ensures
        r == app_id_for(name@.len(), creator_did@.len()),
{
    let mut id: u64 = name.len() as u64;
    id = id.wrapping_mul(31).wrapping_add(creator_did.len() as u64);
    id = id.wrapping_mul(1000000);
    id
}

/// The id of an app's license NFT contract.
pub fn format_nft_contract_id(app_id: u64) -> (r: Vec<u8>)
    ensures
        r@ == nft_contract_id(app_id),
{
    let digits = u64_to_decimal(app_id);
    key_with("nft_app_", digits.as_slice())
}

/// `prefix` followed by the little-endian bytes of `id`.
pub fn format_storage_key(prefix: &[u8], id: u64) -> (r: Vec<u8>)
    ensures
        r@ == storage_key(prefix@, id),
{
    let mut key: Vec<u8> = Vec::new();
    append_bytes(&mut key, prefix);
    push_u64_le(&mut key, id);
    proof {
        assert(Seq::<u8>::empty() + prefix@ == prefix@);
    }
    key
}

/// The category index key of an app.
pub fn format_category_key(category: u8, app_id: u64) -> (r: Vec<u8>)
    ensures
        r@ == category_key(category, app_id),
{
    let mut key = key_with("category:", &[]);
    key.push(category);
    key.push(58u8);
    push_u64_le(&mut key, app_id);
    proof {
        assert("category:".spec_bytes() + Seq::<u8>::empty() == "category:".spec_bytes());
        assert(key@ =~= category_key(category, app_id));
    }
    key
}

/// The author index key of an app.
pub fn format_author_key(author_did: &[u8], app_id: u64) -> (r: Vec<u8>)
    ensures
        r@ == author_key(author_did@, app_id),
{
    let mut key = key_with("author:", author_did);
    key.push(58u8);
    push_u64_le(&mut key, app_id);
    proof {
        assert(key@ =~= author_key(author_did@, app_id));
    }
    key
}

/// The record of an app's price.
pub open spec fn price_key(app_id: u64) -> Seq<u8> {
    storage_key("price:".spec_bytes(), app_id)
}

/// The record of an app's author, who is paid for its sales.
pub open spec fn app_author_key(app_id: u64) -> Seq<u8> {
    storage_key("app_author:".spec_bytes(), app_id)
}

pub open spec fn version_key(app_id: u64) -> Seq<u8> {
    storage_key("version:".spec_bytes(), app_id)
}

pub open spec fn fact_package_key(app_id: u64) -> Seq<u8> {
    storage_key("fact_package:".spec_bytes(), app_id)
}

pub open spec fn wasm_hash_key(app_id: u64) -> Seq<u8> {
    storage_key("wasm_hash:".spec_bytes(), app_id)
}

/// The account that receives the platform fee.
pub const TREASURY_DID: &'static str = "did:spacekit:platform:treasury";

/// The store after publishing app `id` by `author` in `category` at
/// `price`: the listing, its category entry and its author entry each hold
/// the id, and the price and the author are recorded for purchases.
pub open spec fn published(m: Map<Seq<u8>, Seq<u8>>, author: Seq<u8>, category: u8, price: u64, id: u64) -> Map<Seq<u8>, Seq<u8>> {
    m.insert(app_key(id), u64_le_bytes(id))
        .insert(category_key(category, id), u64_le_bytes(id))
        .insert(author_key(author, id), u64_le_bytes(id))
        .insert(price_key(id), u64_le_bytes(price))
        .insert(app_author_key(id), author)
}

/// Whether a publication passes its checks: enough reputation, and the
/// fact registry confirms the package and the hash.
pub open spec fn publish_passes(publisher_rep: i64, package_exists: i32, hash_valid: i32) -> bool {
    publisher_rep >= MIN_PUBLISHER_REPUTATION && package_exists == 1 && hash_valid == 1
}

/// Publishing: the publisher's reputation must reach the minimum (-1), the
/// fact package must exist (-2) and hold the app's WASM hash (-3); then
/// the app is listed under its derived id, which is the reply.
pub open spec fn spec_publish(
    m: Map<Seq<u8>, Seq<u8>>,
    caller: Seq<u8>,
    name_len: nat,
    category: u8,
    price: u64,
    publisher_rep: i64,
    package_exists: i32,
    hash_valid: i32,
) -> (Map<Seq<u8>, Seq<u8>>, i64) {
    if publisher_rep < MIN_PUBLISHER_REPUTATION {
        (m, -1i64)
    } else if package_exists != 1 {
        (m, -2i64)
    } else if hash_valid != 1 {
        (m, -3i64)
    } else {
        let id = app_id_for(name_len, caller.len());
        (published(m, caller, category, price, id), id as i64)
    }
}

/// Publishes a new app at `price`. `publisher_rep` is the caller's
/// application reputation, `package_exists` and `hash_valid` are the fact
/// registry's answers (1 for yes) about the app's fact package and WASM
/// hash. A publication that goes through emits AppPublished with the id.
pub fn publish_app(
    store: &mut KvStore,
    caller: &[u8],
    name: &[u8],
    category: u8,
    price: u64,
    publisher_rep: i64,
    package_exists: i32,
    hash_valid: i32,
    events: &mut Vec<Event>,
) -> (r: i64)
    requires
        old(store).wf(),
    ensures
        final(store).wf(),
        (final(store)@, r) == spec_publish(old(store)@, caller@, name@.len(), category, price, publisher_rep, package_exists, hash_valid),
        publish_passes(publisher_rep, package_exists, hash_valid) ==> event_log(final(events)@) == event_log(old(events)@).push(
            ("AppPublished".spec_bytes(), u64_le_bytes(app_id_for(name@.len(), caller@.len()))),
        ),
        !publish_passes(publisher_rep, package_exists, hash_valid) ==> final(events)@ == old(events)@,
{
    if publisher_rep < MIN_PUBLISHER_REPUTATION {
        return -1;
    }
    if package_exists != 1 {
        return -2;
    }
    if hash_valid != 1 {
        return -3;
    }
    let app_id = generate_app_id(name, caller);
    let id_bytes = crate::codec::u64_to_le_vec(app_id);
    let storage_key = format_storage_key("app:".as_bytes(), app_id);
    store.save(storage_key.as_slice(), id_bytes.as_slice());
    let category_key = format_category_key(category, app_id);
    store.save(category_key.as_slice(), id_bytes.as_slice());
    let author_key = format_author_key(caller, app_id);
    store.save(author_key.as_slice(), id_bytes.as_slice());
    let pk = format_storage_key("price:".as_bytes(), app_id);
    let price_bytes = crate::codec::u64_to_le_vec(price);
    store.save(pk.as_slice(), price_bytes.as_slice());
    let ak = format_storage_key("app_author:".as_bytes(), app_id);
    store.save(ak.as_slice(), caller);
    emit(events, "AppPublished", id_bytes.as_slice());
    app_id as i64
}

/// The platform fee of a price: `PLATFORM_FEE_BPS` basis points, rounded
/// down.
pub open spec fn platform_fee(price: u64) -> int {
    (price * PLATFORM_FEE_BPS) as int / (BASIS_POINTS as int)
}

/// The platform fee and the creator's share of a price: the fee is
/// `PLATFORM_FEE_BPS` basis points of the price, rounded down, and the
/// creator gets the rest.
pub fn revenue_split(price: u64) -> (r: (u64, u64))
    ensures
        r.0 == platform_fee(price),
        r.0 + r.1 == price,
{
    let q = price / BASIS_POINTS;
    let rem = price % BASIS_POINTS;
    proof {
        assert(price == q * 10000 + rem) by (nonlinear_arith)
            requires q == price / 10000, rem == price % 10000;
        assert((price * 100) / 10000 == q * 100 + (rem * 100) / 10000) by (nonlinear_arith)
            requires price == q * 10000 + rem, 0 <= rem < 10000, q >= 0;
        assert(q * 100 + (rem * 100) / 10000 <= price) by (nonlinear_arith)
            requires price == q * 10000 + rem, 0 <= rem < 10000, q >= 0;
    }
    let platform_fee = q * PLATFORM_FEE_BPS + (rem * PLATFORM_FEE_BPS) / BASIS_POINTS;
    let creator_amount = price - platform_fee;
    (platform_fee, creator_amount)
}

/// A token payment the host is asked to make from the buyer.
pub struct Payment {
    pub to: Vec<u8>,
    pub amount: u64,
}

/// What a purchase asks of the host: the payments to make, in order, and
/// the license NFT contract on which a token is then minted for the buyer.
pub struct PurchaseOrder {
    pub payments: Vec<Payment>,
    pub nft_contract: Vec<u8>,
}

/// The stored price of an app (0 when none is recorded).
pub open spec fn app_price(m: Map<Seq<u8>, Seq<u8>>, app_id: u64) -> u64 {
    spec_u64_or_zero(m, price_key(app_id))
}

/// The recorded author of an app (read with a 256-byte buffer; empty when
/// none is recorded).
pub open spec fn app_author(m: Map<Seq<u8>, Seq<u8>>, app_id: u64) -> Seq<u8> {
    match spec_load(m, app_author_key(app_id), 256) {
        Ok(a) => a,
        Err(_) => Seq::empty(),
    }
}

/// The payments of a purchase at `price`: none for a free app; else the
/// creator's share to the author, then the platform fee to the treasury,
/// which together make the price.
pub open spec fn payments_for(price: u64, author: Seq<u8>) -> Seq<(Seq<u8>, u64)> {
    if price == 0 {
        seq![]
    } else {
        seq![(author, (price - platform_fee(price)) as u64), (TREASURY_DID.spec_bytes(), platform_fee(price) as u64)]
    }
}

/// First step of a purchase: the app must be listed (-1), and for a paid
/// app the buyer's token balance (`buyer_balance`, the host's answer) must
/// cover the price (-2). The reply is the payments to make and the
/// license NFT contract to mint on.
pub fn purchase_app(store: &KvStore, app_id: u64, buyer_balance: u64) -> (r: Result<PurchaseOrder, i64>)
    requires
        store.wf(),
    ensures
        !store@.contains_key(app_key(app_id)) ==> r == Err::<PurchaseOrder, i64>(-1i64),
        store@.contains_key(app_key(app_id)) && app_price(store@, app_id) > 0 && buyer_balance < app_price(store@, app_id)
            ==> r == Err::<PurchaseOrder, i64>(-2i64),
        store@.contains_key(app_key(app_id)) && !(app_price(store@, app_id) > 0 && buyer_balance < app_price(store@, app_id))
            ==> (r matches Ok(o) && o.nft_contract@ == nft_contract_id(app_id)
                && o.payments@.map_values(|p: Payment| (p.to@, p.amount)) == payments_for(app_price(store@, app_id), app_author(store@, app_id))),
{
    let storage_key = format_storage_key("app:".as_bytes(), app_id);
    if !store.contains_key(storage_key.as_slice()) {
        return Err(-1);
    }
    let pk = format_storage_key("price:".as_bytes(), app_id);
    let price = load_u64_or_zero(store, pk.as_slice());
    let mut payments: Vec<Payment> = Vec::new();
    if price > 0 {
        if buyer_balance < price {
            return Err(-2);
        }
        let ak = format_storage_key("app_author:".as_bytes(), app_id);
        let author = match load_bytes(store, ak.as_slice(), 256) {
            Ok(a) => a,
            Err(_) => Vec::new(),
        };
        let (fee, creator_amount) = revenue_split(price);
        payments.push(Payment { to: author, amount: creator_amount });
        let treasury = key_with(TREASURY_DID, &[]);
        assert(TREASURY_DID.spec_bytes() + Seq::<u8>::empty() == TREASURY_DID.spec_bytes());
        payments.push(Payment { to: treasury, amount: fee });
        assert(payments@.map_values(|p: Payment| (p.to@, p.amount)) =~= payments_for(price, app_author(store@, app_id)));
    } else {
        assert(payments@.map_values(|p: Payment| (p.to@, p.amount)) =~= payments_for(price, app_author(store@, app_id)));
    }
    Ok(PurchaseOrder { payments, nft_contract: format_nft_contract_id(app_id) })
}

/// Settles the payments of a paid purchase with the host's answer for the
/// creator's share (1 when it went through): a failed payment refuses the
/// purchase (-3); otherwise RevenueDistributed names the app.
pub fn settle_payment(app_id: u64, creator_paid: i32, events: &mut Vec<Event>) -> (r: Result<(), i64>)
    ensures
        creator_paid != 1 ==> r == Err::<(), i64>(-3i64) && final(events)@ == old(events)@,
        creator_paid == 1 ==> r is Ok && event_log(final(events)@) == event_log(old(events)@).push(
            ("RevenueDistributed".spec_bytes(), u64_le_bytes(app_id)),
        ),
{
    if creator_paid != 1 {
        return Err(-3);
    }
    let id_bytes = crate::codec::u64_to_le_vec(app_id);
    emit(events, "RevenueDistributed", id_bytes.as_slice());
    Ok(())
}

/// Last step of a purchase, with the id of the minted license token (0
/// when minting failed, -4): the app's download count goes up by one, the
/// token id is the reply, and AppPurchased names the token.
pub fn complete_purchase(store: &mut KvStore, app_id: u64, token_id: u64, events: &mut Vec<Event>) -> (r: i64)
    requires
        old(store).wf(),
        token_id != 0 ==> spec_u64_or_zero(old(store)@, downloads_key(app_id)) < u64::MAX,
    ensures
        final(store).wf(),
        token_id == 0 ==> r == -4 && final(store)@ == old(store)@ && final(events)@ == old(events)@,
        token_id != 0 ==> r == token_id as i64 && final(store)@ == old(store)@.insert(
            downloads_key(app_id),
            u64_le_bytes((spec_u64_or_zero(old(store)@, downloads_key(app_id)) + 1) as u64),
        ) && event_log(final(events)@) == event_log(old(events)@).push(("AppPurchased".spec_bytes(), u64_le_bytes(token_id))),
{
    if token_id == 0 {
        return -4;
    }
    let downloads_key = format_storage_key("downloads:".as_bytes(), app_id);
    let count = load_u64_or_zero(store, downloads_key.as_slice());
    save_u64(store, downloads_key.as_slice(), count + 1);
    let id_bytes = crate::codec::u64_to_le_vec(token_id);
    emit(events, "AppPurchased", id_bytes.as_slice());
    token_id as i64
}

/// Whether an app is listed.
pub fn is_listed(store: &KvStore, app_id: u64) -> (r: bool)
    requires
        store.wf(),
    ensures
        r == store@.contains_key(app_key(app_id)),
{
    let storage_key = format_storage_key("app:".as_bytes(), app_id);
    store.contains_key(storage_key.as_slice())
}

/// Updating an app publishes a new version: it must be listed (-1), its new
/// fact package must exist (-2) and hold the new WASM hash (-3), and
/// nothing changes then; otherwise the version, fact package id and WASM
/// hash are recorded, AppUpdated names the app, and the reply is 1.
pub open spec fn spec_update(
    m: Map<Seq<u8>, Seq<u8>>,
    app_id: u64,
    version: Seq<u8>,
    package_id: Seq<u8>,
    wasm_hash: Seq<u8>,
    package_exists: i32,
    hash_valid: i32,
) -> (Map<Seq<u8>, Seq<u8>>, i32) {
    if !m.contains_key(app_key(app_id)) {
        (m, -1i32)
    } else if package_exists != 1 {
        (m, -2i32)
    } else if hash_valid != 1 {
        (m, -3i32)
    } else {
        (m.insert(version_key(app_id), version).insert(fact_package_key(app_id), package_id).insert(wasm_hash_key(app_id), wasm_hash), 1i32)
    }
}

/// Publishes a new version of an app; `package_exists` and `hash_valid`
/// are the fact registry's answers about the new package and hash.
pub fn update_app(
    store: &mut KvStore,
    app_id: u64,
    version: &[u8],
    package_id: &[u8],
    wasm_hash: &[u8],
    package_exists: i32,
    hash_valid: i32,
    events: &mut Vec<Event>,
) -> (r: i32)
    requires
        old(store).wf(),
    ensures
        final(store).wf(),
        (final(store)@, r) == spec_update(old(store)@, app_id, version@, package_id@, wasm_hash@, package_exists, hash_valid),
        r == 1 ==> event_log(final(events)@) == event_log(old(events)@).push(("AppUpdated".spec_bytes(), u64_le_bytes(app_id))),
        r != 1 ==> final(events)@ == old(events)@,
{
    let storage_key = format_storage_key("app:".as_bytes(), app_id);
    if !store.contains_key(storage_key.as_slice()) {
        return -1;
    }
    if package_exists != 1 {
        return -2;
    }
    if hash_valid != 1 {
        return -3;
    }
    let vk = format_storage_key("version:".as_bytes(), app_id);
    store.save(vk.as_slice(), version);
    let fk = format_storage_key("fact_package:".as_bytes(), app_id);
    store.save(fk.as_slice(), package_id);
    let wk = format_storage_key("wasm_hash:".as_bytes(), app_id);
    store.save(wk.as_slice(), wasm_hash);
    let id_bytes = crate::codec::u64_to_le_vec(app_id);
    emit(events, "AppUpdated", id_bytes.as_slice());
    1
}

/// Whether a user holds a license for an app: no license is ever found
/// (the answer is 0).
pub fn has_license(app_id: u64, user_did: &[u8]) -> (r: i32)
    ensures
        r == 0,
{
    0
}

/// Featured apps: the catalogue keeps no list of them, so the count of
/// ids written is 0.
pub fn get_featured_apps(max_len: usize) -> (r: i32)
    ensures
        r == 0,
{
    0
}

/// The `limit` most downloaded apps: no ranking is kept, so the count of
/// ids written is 0.
pub fn get_popular_apps(limit: u32, max_len: usize) -> (r: i32)
    ensures
        r == 0,
{
    0
}

/// Apps of a category: the category entries are not enumerated, so the
/// count of ids written is 0.
pub fn get_apps_by_category(category: u8, max_len: usize) -> (r: i32)
    ensures
        r == 0,
{
    0
}

/// Apps of an author: the author entries are not enumerated, so the count
/// of ids written is 0.
pub fn get_apps_by_author(author_did: &[u8], max_len: usize) -> (r: i32)
    ensures
        r == 0,
{
    0
}

/// Apps whose name or description matches `query`: no text index is kept,
/// so the count of ids written is 0.
pub fn search_apps(query: &[u8], max_len: usize) -> (r: i32)
    ensures
        r == 0,
{
    0
}

/// Marks an app as featured or not: the flag byte is stored under the
/// app's featured key and the reply is 1.
pub fn set_featured(store: &mut KvStore, app_id: u64, is_featured: u8) -> (r: i32)
    requires
        old(store).wf(),
    ensures
        final(store).wf(),
        final(store)@ == old(store)@.insert(featured_key(app_id), seq![is_featured]),
        r == 1,
{
    let featured_key = format_storage_key("featured:".as_bytes(), app_id);
    let mut flag: Vec<u8> = Vec::new();
    flag.push(is_featured);
    store.save(featured_key.as_slice(), flag.as_slice());
    1
}

/// Total revenue recorded for an app (0 when none is recorded).
pub fn get_app_revenue(store: &KvStore, app_id: u64) -> (r: u64)
    requires
        store.wf(),
    ensures
        r == spec_u64_or_zero(store@, revenue_key(app_id)),
{
    let revenue_key = format_storage_key("revenue:".as_bytes(), app_id);
    load_u64_or_zero(store, revenue_key.as_slice())
}

/// Download count of an app (0 when none is recorded).
pub fn get_download_count(store: &KvStore, app_id: u64) -> (r: u64)
    requires
        store.wf(),
    ensures
        r == spec_u64_or_zero(store@, downloads_key(app_id)),
{
    let downloads_key = format_storage_key("downloads:".as_bytes(), app_id);
    load_u64_or_zero(store, downloads_key.as_slice())
}

/// A published app is listed under its id, so a purchase of it can go on
/// to minting a license.
pub proof fn law_published_app_is_listed(
    m: Map<Seq<u8>, Seq<u8>>,
    caller: Seq<u8>,
    name_len: nat,
    category: u8,
    price: u64,
    publisher_rep: i64,
    package_exists: i32,
    hash_valid: i32,
)
    requires
        publisher_rep >= MIN_PUBLISHER_REPUTATION,
        package_exists == 1,
        hash_valid == 1,
    ensures
        spec_publish(m, caller, name_len, category, price, publisher_rep, package_exists, hash_valid).0.contains_key(
            app_key(app_id_for(name_len, caller.len())),
        ),
{
}

/// A paid purchase splits the price between the author and the treasury:
/// the treasury gets the platform fee (1%, rounded down), the author the
/// rest, and together they get exactly the price.
pub proof fn law_paid_purchase_splits_price(price: u64, author: Seq<u8>)
    requires
        price > 0,
    ensures
        payments_for(price, author).len() == 2,
        payments_for(price, author)[0].0 == author,
        payments_for(price, author)[1].0 == TREASURY_DID.spec_bytes(),
        payments_for(price, author)[1].1 == (price * 100) / 10000,
        payments_for(price, author)[0].1 + payments_for(price, author)[1].1 == price,
{
    assert(0 <= (price * 100) / 10000 <= price) by (nonlinear_arith)
        requires price >= 0;
}

/// After an update goes through, the app's stored version, fact package
/// and WASM hash are the new ones.
pub proof fn law_update_records_version(
    m: Map<Seq<u8>, Seq<u8>>,
    app_id: u64,
    version: Seq<u8>,
    package_id: Seq<u8>,
    wasm_hash: Seq<u8>,
)
    requires
        m.contains_key(app_key(app_id)),
    ensures
        ({
            let after = spec_update(m, app_id, version, package_id, wasm_hash, 1, 1).0;
            &&& after[version_key(app_id)] == version
            &&& after[fact_package_key(app_id)] == package_id
            &&& after[wasm_hash_key(app_id)] == wasm_hash
        }),
{
    reveal_strlit("version:");
    reveal_strlit("fact_package:");
    reveal_strlit("wasm_hash:");
    vstd::string::is_ascii_spec_bytes("version:");
    vstd::string::is_ascii_spec_bytes("fact_package:");
    vstd::string::is_ascii_spec_bytes("wasm_hash:");
    assert(version_key(app_id)[0] != fact_package_key(app_id)[0]);
    assert(version_key(app_id)[0] != wasm_hash_key(app_id)[0]);
    assert(fact_package_key(app_id)[0] != wasm_hash_key(app_id)[0]);
}

/// Each completed purchase adds one to the app's download count.
pub proof fn law_purchase_counts_download(m: Map<Seq<u8>, Seq<u8>>, app_id: u64)
    requires
        spec_u64_or_zero(m, downloads_key(app_id)) < u64::MAX,
    ensures
        spec_u64_or_zero(
            m.insert(downloads_key(app_id), u64_le_bytes((spec_u64_or_zero(m, downloads_key(app_id)) + 1) as u64)),
            downloads_key(app_id),
        ) == spec_u64_or_zero(m, downloads_key(app_id)) + 1,
{
    lemma_u64_saved(m, downloads_key(app_id), (spec_u64_or_zero(m, downloads_key(app_id)) + 1) as u64);
}

/// A publication that passes its checks answers the app's id and lists
/// it with its price and author, so that a later purchase charges exactly
/// that price and pays the author: the purchase's payments are those of
/// `payments_for(price, author)` (for an author of 1 to 256 bytes).
pub proof fn law_published_app_is_sold_at_its_price(
    m: Map<Seq<u8>, Seq<u8>>,
    caller: Seq<u8>,
    name_len: nat,
    category: u8,
    price: u64,
    publisher_rep: i64,
    package_exists: i32,
    hash_valid: i32,
)
    requires
        publish_passes(publisher_rep, package_exists, hash_valid),
        0 < caller.len() <= 256,
    ensures ({
        let id = app_id_for(name_len, caller.len());
        let after = spec_publish(m, caller, name_len, category, price, publisher_rep, package_exists, hash_valid);
        &&& after.1 == id as i64
        &&& after.0.contains_key(app_key(id))
        &&& app_price(after.0, id) == price
        &&& app_author(after.0, id) == caller
        &&& payments_for(app_price(after.0, id), app_author(after.0, id)) == payments_for(price, caller)
    }),
{
    let id = app_id_for(name_len, caller.len());
    reveal_strlit("price:");
    reveal_strlit("app_author:");
    vstd::string::is_ascii_spec_bytes("price:");
    vstd::string::is_ascii_spec_bytes("app_author:");
    assert(price_key(id)[0] != app_author_key(id)[0]);
    let m4 = m.insert(app_key(id), u64_le_bytes(id))
        .insert(category_key(category, id), u64_le_bytes(id))
        .insert(author_key(caller, id), u64_le_bytes(id))
        .insert(price_key(id), u64_le_bytes(price));
    lemma_u64_saved(m.insert(app_key(id), u64_le_bytes(id))
        .insert(category_key(category, id), u64_le_bytes(id))
        .insert(author_key(caller, id), u64_le_bytes(id)), price_key(id), price);
    let m5 = m4.insert(app_author_key(id), caller);
    assert(m5[price_key(id)] == m4[price_key(id)]);
    assert(spec_u64_or_zero(m5, price_key(id)) == spec_u64_or_zero(m4, price_key(id)));
    assert(prefix_up_to(caller, 256) =~= caller);
}

} // verus!
