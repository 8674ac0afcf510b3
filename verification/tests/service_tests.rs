use std::sync::Arc;

use bloom::{BloomFilter, BloomdService, Rate};

#[test]
fn service_insert_and_contains() {
    let filter = BloomFilter::new(10_000, Rate { num: 1, den: 100 }).unwrap();
    let service = BloomdService::new(filter);
    service.insert(&"hi");
    assert!(service.contains(&"hi"));
    assert!(!service.contains(&"yo"));
}

#[test]
fn concurrent_inserts_and_queries() {
    let filter = BloomFilter::new(100_000, Rate { num: 1, den: 100 }).unwrap();
    let service = Arc::new(BloomdService::new(filter));

    let runtime = tokio::runtime::Builder::new_multi_thread()
        .worker_threads(4)
        .build()
        .unwrap();

    let writers: u64 = 8;
    let per_writer: u64 = 500;

    runtime.block_on(async {
        let mut handles = Vec::new();
        for w in 0..writers {
            let svc = Arc::clone(&service);
            handles.push(tokio::spawn(async move {
                let base = w * per_writer;
                for item in base..base + per_writer {
                    svc.insert(&item);
                    // Interleave queries with the writes of other tasks.
                    assert!(svc.contains(&item));
                    let _ = svc.contains(&(item + 1));
                }
            }));
        }
        for handle in handles {
            handle.await.unwrap();
        }
    });

    // Once every insert has completed, no inserted item is missing.
    for item in 0..writers * per_writer {
        assert!(service.contains(&item));
    }
}
