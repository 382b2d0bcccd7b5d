use spacekit_stdlib::app_store::license_nft;
use spacekit_stdlib::app_store::listing::{self, AppCategory, AppStatus, LicenseType};
use spacekit_stdlib::host::Event;
use spacekit_stdlib::store::KvStore;

#[test]
fn app_ids_and_keys() {
    assert_eq!(listing::generate_app_id(b"MyApp", b"did:x"), 160_000_000);
    assert_eq!(listing::format_nft_contract_id(0), b"nft_app_0".to_vec());
    assert_eq!(listing::format_nft_contract_id(160_000_000), b"nft_app_160000000".to_vec());
    let mut key = b"app:".to_vec();
    key.extend_from_slice(&7u64.to_le_bytes());
    assert_eq!(listing::format_storage_key(b"app:", 7), key);
    let mut cat = b"category:".to_vec();
    cat.push(2);
    cat.push(b':');
    cat.extend_from_slice(&7u64.to_le_bytes());
    assert_eq!(listing::format_category_key(2, 7), cat);
    let mut author = b"author:did:x:".to_vec();
    author.extend_from_slice(&7u64.to_le_bytes());
    assert_eq!(listing::format_author_key(b"did:x", 7), author);
}

#[test]
fn enum_codes() {
    assert_eq!(AppCategory::Media.code(), 5);
    assert_eq!(AppCategory::Productivity.code(), 0);
    assert_eq!(LicenseType::Enterprise.code(), 2);
    assert_eq!(AppStatus::Suspended.code(), 1);
}

fn ev() -> Vec<Event> {
    Vec::new()
}

#[test]
fn publish_checks_reputation_package_and_hash() {
    let mut store = KvStore::new();
    let mut events = Vec::new();
    assert_eq!(listing::publish_app(&mut store, b"did:x", b"MyApp", 1, 0, 99, 1, 1, &mut events), -1);
    assert_eq!(listing::publish_app(&mut store, b"did:x", b"MyApp", 1, 0, 100, 0, 1, &mut events), -2);
    assert_eq!(listing::publish_app(&mut store, b"did:x", b"MyApp", 1, 0, 100, 1, 0, &mut events), -3);
    assert!(events.is_empty());
    assert!(matches!(listing::purchase_app(&store, 160_000_000, 0), Err(-1)));
    assert_eq!(listing::publish_app(&mut store, b"did:x", b"MyApp", 1, 0, 100, 1, 1, &mut events), 160_000_000);
    assert_eq!(events.len(), 1);
    assert_eq!(events[0].name, b"AppPublished".to_vec());
    assert_eq!(events[0].data, 160_000_000u64.to_le_bytes().to_vec());
    match listing::purchase_app(&store, 160_000_000, 0) {
        Ok(order) => {
            assert_eq!(order.nft_contract, b"nft_app_160000000".to_vec());
            assert!(order.payments.is_empty());
        }
        Err(_) => panic!("listed free app"),
    }
    assert_eq!(listing::update_app(&mut store, 160_000_000, b"1.1", b"pkg2", b"hash2", 0, 1, &mut events), -2);
    assert_eq!(listing::update_app(&mut store, 5, b"1.1", b"pkg2", b"hash2", 1, 1, &mut events), -1);
    assert_eq!(events.len(), 1);
    assert_eq!(listing::update_app(&mut store, 160_000_000, b"1.1", b"pkg2", b"hash2", 1, 1, &mut events), 1);
    assert_eq!(events[1].name, b"AppUpdated".to_vec());
}

#[test]
fn paid_purchase_pays_author_and_treasury() {
    let mut store = KvStore::new();
    let id = listing::publish_app(&mut store, b"did:author", b"Pro", 0, 10_000, 100, 1, 1, &mut ev()) as u64;
    assert!(matches!(listing::purchase_app(&store, id, 9_999), Err(-2)));
    let order = match listing::purchase_app(&store, id, 10_000) {
        Ok(o) => o,
        Err(_) => panic!("balance covers the price"),
    };
    assert_eq!(order.payments.len(), 2);
    assert_eq!((order.payments[0].to.clone(), order.payments[0].amount), (b"did:author".to_vec(), 9_900));
    assert_eq!(
        (order.payments[1].to.clone(), order.payments[1].amount),
        (listing::TREASURY_DID.as_bytes().to_vec(), 100)
    );
    let mut events = Vec::new();
    assert_eq!(listing::settle_payment(id, 0, &mut events), Err(-3));
    assert!(events.is_empty());
    assert_eq!(listing::settle_payment(id, 1, &mut events), Ok(()));
    assert_eq!(events[0].name, b"RevenueDistributed".to_vec());
}

#[test]
fn purchases_count_downloads() {
    let mut store = KvStore::new();
    let mut events = Vec::new();
    assert_eq!(listing::get_download_count(&store, 9), 0);
    assert_eq!(listing::complete_purchase(&mut store, 9, 0, &mut events), -4);
    assert_eq!(listing::get_download_count(&store, 9), 0);
    assert_eq!(listing::complete_purchase(&mut store, 9, 3, &mut events), 3);
    assert_eq!(listing::complete_purchase(&mut store, 9, 4, &mut events), 4);
    assert_eq!(listing::get_download_count(&store, 9), 2);
    assert_eq!(listing::get_app_revenue(&store, 9), 0);
    assert_eq!(events.len(), 2);
    assert_eq!(events[1].name, b"AppPurchased".to_vec());
}

#[test]
fn revenue_split_gives_one_percent_to_the_platform() {
    assert_eq!(listing::revenue_split(10_000), (100, 9_900));
    assert_eq!(listing::revenue_split(199), (1, 198));
    assert_eq!(listing::revenue_split(0), (0, 0));
}

#[test]
fn featured_flag_and_defaults() {
    let mut store = KvStore::new();
    assert_eq!(listing::set_featured(&mut store, 3, 1), 1);
    assert_eq!(listing::has_license(3, b"did:x"), 0);
}

#[test]
fn license_mint_owner_and_supply() {
    let mut store = KvStore::new();
    let mut events = Vec::new();
    assert_eq!(license_nft::initialize(&mut store, b"appstore", 42, LicenseType::Commercial.code()), 1);
    assert_eq!(license_nft::total_supply(&store), 0);
    assert_eq!(license_nft::mint(&mut store, b"appstore", b"did:alice", 500, 1234, &mut events), 1);
    assert_eq!(license_nft::mint(&mut store, b"appstore", b"did:bob", 500, 1235, &mut events), 2);
    assert_eq!(license_nft::total_supply(&store), 2);
    assert_eq!(license_nft::owner_of(&store, 1, 256), Some(b"did:alice".to_vec()));
    let mut meta = 500u64.to_le_bytes().to_vec();
    meta.extend_from_slice(&1234u64.to_le_bytes());
    assert_eq!(license_nft::get_metadata(&store, 1, 64), Some(meta));
    assert_eq!(license_nft::owner_of(&store, 3, 256), None);
    assert_eq!(events.len(), 2);
    assert_eq!(events[1].name, b"Transfer".to_vec());
    assert_eq!(events[1].data, 2u64.to_le_bytes().to_vec());
}

#[test]
fn only_the_app_store_mints() {
    let mut store = KvStore::new();
    let mut events = Vec::new();
    license_nft::initialize(&mut store, b"appstore", 42, 1);
    assert_eq!(license_nft::mint(&mut store, b"did:mallory", b"did:mallory", 0, 0, &mut events), 0);
    assert_eq!(license_nft::total_supply(&store), 0);
    assert!(events.is_empty());
}

#[test]
fn commercial_license_transfers_personal_does_not() {
    let mut store = KvStore::new();
    let mut events = Vec::new();
    license_nft::initialize(&mut store, b"appstore", 1, LicenseType::Commercial.code());
    license_nft::mint(&mut store, b"appstore", b"did:alice", 0, 0, &mut ev());
    assert_eq!(license_nft::transfer(&mut store, b"did:bob", 1, b"did:carol", &mut events), -2);
    assert_eq!(license_nft::transfer(&mut store, b"did:alice", 9, b"did:carol", &mut events), -1);
    assert!(events.is_empty());
    assert_eq!(license_nft::transfer(&mut store, b"did:alice", 1, b"did:carol", &mut events), 1);
    assert_eq!(license_nft::owner_of(&store, 1, 256), Some(b"did:carol".to_vec()));
    assert_eq!(events[0].name, b"Transfer".to_vec());

    let mut personal = KvStore::new();
    license_nft::initialize(&mut personal, b"appstore", 1, LicenseType::Personal.code());
    license_nft::mint(&mut personal, b"appstore", b"did:alice", 0, 0, &mut ev());
    assert_eq!(license_nft::transfer(&mut personal, b"did:alice", 1, b"did:carol", &mut ev()), -3);
    assert_eq!(license_nft::owner_of(&personal, 1, 256), Some(b"did:alice".to_vec()));
}

#[test]
fn burn_needs_the_owner_and_revokes() {
    let mut store = KvStore::new();
    let mut events = Vec::new();
    license_nft::initialize(&mut store, b"appstore", 1, 1);
    license_nft::mint(&mut store, b"appstore", b"did:alice", 0, 0, &mut ev());
    assert_eq!(license_nft::burn(&mut store, b"did:bob", 1, &mut events), -2);
    assert_eq!(license_nft::burn(&mut store, b"did:alice", 1, &mut events), 1);
    assert_eq!(license_nft::owner_of(&store, 1, 256), None);
    assert_eq!(license_nft::get_metadata(&store, 1, 64), None);
    assert_eq!(license_nft::burn(&mut store, b"did:alice", 1, &mut events), -1);
    assert_eq!(license_nft::burn(&mut store, b"did:alice", 2, &mut events), -1);
    assert_eq!(events.len(), 1);
    assert_eq!(events[0].name, b"Burn".to_vec());
    let mut key = b"owner_tokens:did:a:".to_vec();
    key.extend_from_slice(&5u64.to_le_bytes());
    assert_eq!(license_nft::format_owner_tokens_key(b"did:a", 5), key);
    assert_eq!(license_nft::has_license(b"did:a"), 0);
    assert_eq!(license_nft::tokens_of(b"did:a"), 0);
}

#[test]
fn catalogue_queries_find_nothing() {
    assert_eq!(listing::get_featured_apps(64), 0);
    assert_eq!(listing::get_popular_apps(10, 64), 0);
    assert_eq!(listing::get_apps_by_category(AppCategory::Gaming.code(), 64), 0);
    assert_eq!(listing::get_apps_by_author(b"did:x", 64), 0);
    assert_eq!(listing::search_apps(b"chess", 64), 0);
}
