use kv_metrics::metrics::Metrics;
use std::sync::Arc;
use std::sync::RwLock;

#[test]
fn concurrent_records_lose_no_sample() {
    let metrics = Arc::new(RwLock::new(Metrics::new()));
    let runtime = tokio::runtime::Builder::new_multi_thread()
        .worker_threads(8)
        .build()
        .unwrap();

    let tasks: u64 = 100;
    let records_per_task: u64 = 50;
    runtime.block_on(async {
        let mut handles = Vec::new();
        for t in 0..tasks {
            let metrics = Arc::clone(&metrics);
            handles.push(tokio::spawn(async move {
                for i in 0..records_per_task {
                    metrics.write().unwrap().record(t * 1_000 + i);
                }
            }));
        }
        for handle in handles {
            handle.await.unwrap();
        }
    });

    let (_, _, _, count) = metrics.write().unwrap().snapshot();
    assert_eq!(count as u64, tasks * records_per_task);
}
