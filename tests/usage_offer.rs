use sip_stack::dialog::{DialogEntry, Usage};

struct Takes(u32);

impl Usage<u32> for Takes {
    fn takes(&self, request: u32) -> bool {
        request == self.0
    }

    fn name(&self) -> &'static str {
        "takes"
    }

    fn receive(&self, request: u32) -> Option<u32> {
        if request == self.0 {
            None
        } else {
            Some(request)
        }
    }
}

#[test]
fn first_taker_wins_and_untaken_comes_back() {
    let mut e: DialogEntry<u32, Takes> = DialogEntry::new(None);
    e.register_usage(Takes(1)).unwrap();
    e.register_usage(Takes(2)).unwrap();
    assert_eq!(e.offer_to_usages(2), None);
    assert_eq!(e.offer_to_usages(1), None);
    assert_eq!(e.offer_to_usages(3), Some(3));
}
