use pastebin::pastes::{NewPaste, Paste, PasteStore};

fn seeded() -> (PasteStore, Paste) {
    let mut store = PasteStore::new();
    let paste = store
        .create_paste(&NewPaste {
            user_id: 1,
            data: "test paste data".to_string(),
        })
        .unwrap();
    (store, paste)
}

#[test]
fn pastes_test_create_paste() {
    let mut store = PasteStore::new();
    let paste_data = "test paste data";
    let user_id = 1;

    let new_paste = NewPaste {
        user_id,
        data: paste_data.to_string(),
    };
    let paste = store.create_paste(&new_paste).unwrap();

    assert_eq!(paste.user_id, user_id);
    assert_eq!(paste.data, paste_data);
}

#[test]
fn test_update_paste() {
    let (mut store, paste) = seeded();
    let updated_data = "updated paste data";

    let updated_paste = Paste {
        id: paste.id,
        user_id: paste.user_id,
        data: updated_data.to_string(),
    };
    let paste = store.update_paste(updated_paste).unwrap();
    assert_eq!(paste.data, updated_data);
}

#[test]
fn pastes_test_get_paste_by_id() {
    let (store, test_paste) = seeded();

    let fetched_paste = store.get_paste_by_id(test_paste.id).unwrap();
    assert_eq!(fetched_paste.id, test_paste.id);
    assert_eq!(fetched_paste.user_id, test_paste.user_id);
    assert_eq!(fetched_paste.data, test_paste.data);
}

#[test]
fn test_delete_paste() {
    let mut store = PasteStore::new();
    let paste = NewPaste {
        user_id: 1,
        data: "test paste data".to_string(),
    };
    let paste_id = store.create_paste(&paste).unwrap().id;
    assert_eq!(store.delete_paste(paste_id), 1);
    assert_eq!(store.delete_paste(paste_id), 0);
}
