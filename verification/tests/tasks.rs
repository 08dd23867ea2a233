use hips_pipeline::image::{ImageBuffer, ImageBufferType};
use hips_pipeline::indexer::{BuildCatalogIndex, IndexPoll, Source};
use hips_pipeline::place::{AtlasConfig, TileCell};
use hips_pipeline::scheduler::{ParseTable, Scheduler, SendTileToGPU, TaskResult, TaskType, TaskWork};
use hips_pipeline::blend::{BlendCfg, BlendFactor, BlendFunc};

fn upload_work(idx: u64) -> (TaskType, TaskWork) {
    let cfg = AtlasConfig::new(64, 128, 4).unwrap();
    let cell = TileCell { depth: 1, idx };
    let image = ImageBufferType::R8UI(ImageBuffer::<u8>::allocate(&vec![0u8], 64, 64));
    let task = SendTileToGPU::new(cell, 0, image, &cfg);
    (TaskType::SendTileToGPU(cell), TaskWork::Upload(task))
}

#[test]
fn submit_deduplicates_identity() {
    let mut sched = Scheduler::new();
    let (k1, w1) = upload_work(3);
    let (k2, w2) = upload_work(3);
    sched.submit(k1, w1);
    sched.submit(k2, w2);
    assert_eq!(sched.pending_len(), 1);
    let results = sched.tick(1000);
    assert_eq!(results.len(), 1);
    assert_eq!(sched.pending_len(), 0);
}

#[test]
fn upload_result_carries_placement() {
    let mut sched = Scheduler::new();
    let (k, w) = upload_work(5);
    sched.submit(k, w);
    let results = sched.tick(1000);
    assert_eq!(results.len(), 1);
    match &results[0] {
        TaskResult::TileSentToGPU { tile, slice, x, y, image: _ } => {
            assert_eq!(tile.idx, 5);
            assert_eq!(*slice, 0);
            // texture 0, cell 5: position 1 in the 2x2 tile grid.
            assert_eq!(*x, 64);
            assert_eq!(*y, 0);
        }
        _ => panic!("expected an upload result"),
    }
}

#[test]
fn cancelled_task_yields_no_result() {
    let mut sched = Scheduler::new();
    let (k, w) = upload_work(9);
    sched.submit(k, w);
    let key = TaskType::SendTileToGPU(TileCell { depth: 1, idx: 9 });
    sched.cancel(&key);
    assert!(!sched.contains(&key));
    assert_eq!(sched.pending_len(), 0);
    let results = sched.tick(1000);
    assert_eq!(results.len(), 0);
}

#[test]
fn parse_table_skips_malformed_rows() {
    let rows = vec![
        Some(Source { key: 4, id: 0 }),
        None,
        Some(Source { key: 2, id: 2 }),
    ];
    let parser = ParseTable::new(String::from("cat"), rows);
    let mut sched = Scheduler::new();
    sched.submit(TaskType::ParseTable, TaskWork::Parse(parser));
    let results = sched.drain(1000);
    assert_eq!(results.len(), 1);
    match &results[0] {
        TaskResult::TableParsed { name, sources } => {
            assert_eq!(name, "cat");
            assert_eq!(sources.len(), 2);
            assert_eq!(sources[0], Source { key: 4, id: 0 });
            assert_eq!(sources[1], Source { key: 2, id: 2 });
        }
        _ => panic!("expected a parsed table"),
    }
}

#[test]
fn indexer_sorts_a_permutation() {
    let input = vec![
        Source { key: 30, id: 0 },
        Source { key: 10, id: 1 },
        Source { key: 20, id: 2 },
        Source { key: 10, id: 3 },
        Source { key: 5, id: 4 },
    ];
    let mut ix = BuildCatalogIndex::new(input.clone());
    let mut polls: u32 = 0;
    loop {
        polls += 1;
        assert!(polls < 100);
        match ix.poll() {
            IndexPoll::Pending => continue,
            IndexPoll::Ready => break,
        }
    }
    let out = &ix.sources;
    assert_eq!(out.len(), input.len());
    for w in out.windows(2) {
        assert!(w[0].key <= w[1].key);
    }
    let mut in_ids: Vec<u64> = input.iter().map(|s| s.id).collect();
    let mut out_ids: Vec<u64> = out.iter().map(|s| s.id).collect();
    in_ids.sort_unstable();
    out_ids.sort_unstable();
    assert_eq!(in_ids, out_ids);
}

#[test]
fn tiny_budget_eventually_drains_everything() {
    let sources: Vec<Source> = (0..50)
        .map(|i| Source { key: (97 * i % 41) as u64, id: i as u64 })
        .collect();
    let mut sched = Scheduler::new();
    sched.submit(TaskType::BuildCatalogIndex,
        TaskWork::Index(BuildCatalogIndex::new(sources)));
    let (k, w) = upload_work(1);
    sched.submit(k, w);
    // A zero budget still polls at least one task per tick.
    let mut results = Vec::new();
    let mut ticks: u32 = 0;
    while sched.pending_len() > 0 {
        ticks += 1;
        assert!(ticks < 1000);
        results.extend(sched.tick(0));
    }
    assert_eq!(results.len(), 2);
    let sorted = results.iter().any(|r| match r {
        TaskResult::CatalogIndexed { sources } =>
            sources.windows(2).all(|w| w[0].key <= w[1].key),
        _ => false,
    });
    assert!(sorted);
}

#[test]
fn blend_defaults_and_enumerants() {
    let cfg = BlendCfg::default();
    assert_eq!(cfg.src_color_factor, BlendFactor::SrcAlpha);
    assert_eq!(cfg.dst_color_factor, BlendFactor::OneMinusConstantAlpha);
    assert_eq!(cfg.func, BlendFunc::FuncAdd);
    assert_eq!(BlendFactor::Zero.gl(), 0);
    assert_eq!(BlendFactor::One.gl(), 1);
    assert_eq!(BlendFactor::SrcAlpha.gl(), 0x0302);
    assert_eq!(BlendFactor::OneMinusConstantAlpha.gl(), 0x8004);
    assert_eq!(BlendFunc::FuncAdd.gl(), 0x8006);
    assert_eq!(BlendFunc::Min.gl(), 0x8007);
}
