use transfer_line::buffer::{apply_buffer_event, Buffer, BufferEvent};
use transfer_line::errors::LineError;
use transfer_line::item::Item;
use transfer_line::recipe::{apply_recipe_event, Recipe, RecipeEvent};

#[test]
fn recipe_events_build_a_recipe() {
    let mut recipes: Vec<Recipe> = Vec::new();
    let flour = Item::new("flour".to_owned(), 1, None);
    let bread = Item::new("bread".to_owned(), 3, Some(2));
    let items = vec![flour.clone(), bread.clone()];
    assert_eq!(
        apply_recipe_event(&mut recipes, &items, RecipeEvent::CreateRecipe {
            name: "bake".to_owned()
        }),
        Ok(())
    );
    let recipe_id = recipes[0].id;
    assert_eq!(
        apply_recipe_event(&mut recipes, &items, RecipeEvent::AddInput {
            recipe_id,
            item_id: flour.id(),
            quantity: 2,
        }),
        Ok(())
    );
    assert_eq!(
        apply_recipe_event(&mut recipes, &items, RecipeEvent::AddOutput {
            recipe_id,
            item_id: bread.id(),
            quantity: 1,
        }),
        Ok(())
    );
    assert_eq!(recipes[0].name, "bake");
    assert_eq!(recipes[0].input, vec![(flour.id(), 2)]);
    assert_eq!(recipes[0].output, vec![(bread.id(), 1)]);
}

#[test]
fn recipe_events_reject_unknown_identities() {
    let mut recipes: Vec<Recipe> = Vec::new();
    let flour = Item::new("flour".to_owned(), 1, None);
    let items = vec![flour.clone()];
    assert_eq!(
        apply_recipe_event(&mut recipes, &items, RecipeEvent::AddInput {
            recipe_id: 0,
            item_id: flour.id(),
            quantity: 1,
        }),
        Err(LineError::RecipeNotFoundError)
    );
    apply_recipe_event(&mut recipes, &items, RecipeEvent::CreateRecipe {
        name: "bake".to_owned(),
    })
    .unwrap();
    let recipe_id = recipes[0].id;
    assert_eq!(
        apply_recipe_event(&mut recipes, &items, RecipeEvent::AddInput {
            recipe_id,
            item_id: 0,
            quantity: 1,
        }),
        Err(LineError::ItemNotFoundError)
    );
    assert!(recipes[0].input.is_empty());
}

#[test]
fn concurrent_increments_are_not_lost() {
    // N producer tasks each send one +1 ledger change for the same buffer to
    // the buffer coordinator, which applies the requests strictly one at a
    // time: the final quantity is exactly N.
    let n: i64 = 64;
    let runtime = tokio::runtime::Builder::new_multi_thread()
        .worker_threads(4)
        .build()
        .unwrap();
    let final_quantity = runtime.block_on(async move {
        let buffer = Buffer::new(1, None, None);
        let buffer_id = buffer.id;
        let widget = Item::new("widget".to_owned(), 1, None);
        let widget_id = widget.id();
        let (tx, mut rx) = tokio::sync::mpsc::channel::<BufferEvent>(8);
        let coordinator = tokio::spawn(async move {
            let mut buffers = vec![buffer];
            while let Some(event) = rx.recv().await {
                apply_buffer_event(&mut buffers, event).unwrap();
            }
            buffers[0].get_item_quantity(widget_id)
        });
        let mut producers = Vec::new();
        for _ in 0..n {
            let tx = tx.clone();
            let item = widget.clone();
            producers.push(tokio::spawn(async move {
                tx.send(BufferEvent::ChangeItem { buffer_id, item, quantity: 1 })
                    .await
                    .unwrap();
            }));
        }
        drop(tx);
        for p in producers {
            p.await.unwrap();
        }
        coordinator.await.unwrap()
    });
    assert_eq!(final_quantity, Some(n));
}

#[test]
fn closed_coordinator_surfaces_channel_error() {
    // A request sent after the coordinator stopped consuming must surface as
    // an error, never be dropped silently.
    let runtime = tokio::runtime::Builder::new_current_thread().build().unwrap();
    let result = runtime.block_on(async move {
        let (tx, rx) = tokio::sync::mpsc::channel::<BufferEvent>(1);
        drop(rx);
        let widget = Item::new("widget".to_owned(), 1, None);
        tx.send(BufferEvent::ChangeItem { buffer_id: 1, item: widget, quantity: 1 })
            .await
            .map_err(|_| LineError::ChannelClosedError)
    });
    assert_eq!(result, Err(LineError::ChannelClosedError));
}
